//! The algebraic intermediate representation: components, their traces and
//! the accumulation of their constraint quotients.

use self::accumulation::{DomainEvaluationAccumulator, PointEvaluationAccumulator};
use crate::backend::Backend;
use crate::channel::Channel;
use crate::circle::CirclePoint;
use crate::fields::m31::BaseField;
use crate::fields::qm31::{Quartic, SecureField};
use crate::lookups::gkr_verifier::{Gate, GkrArtifact, GkrBatchProof};
use crate::pcs::{same_shape, tree_shape, TreeVec};
use crate::poly::circle::{CircleEvaluation, CirclePoly, SecureEvaluation};
use crate::poly::BitReversedOrder;
use crate::{ColumnVec, InteractionElements, LookupValues};
use std::collections::BTreeMap;
use vstd::prelude::*;

pub mod accumulation;
pub mod air_ext;

verus! {

/// The identifiers that a list of strings holds.
pub open spec fn ids_of(ids: Seq<String>) -> Seq<Seq<char>> {
    Seq::new(ids.len(), |i: int| ids[i]@)
}

/// Whether `elements` holds a value under each of the identifiers `ids`.
pub open spec fn covers(elements: Map<Seq<char>, Quartic>, ids: Seq<Seq<char>>) -> bool {
    forall|i: int| 0 <= i < ids.len() ==> elements.contains_key(#[trigger] ids[i])
}

/// The number of columns of all trees of a shape together.
pub open spec fn n_columns(shape: Seq<nat>) -> nat
    decreases shape.len(),
{
    if shape.len() == 0 {
        0
    } else {
        n_columns(shape.drop_last()) + shape.last()
    }
}

/// Arithmetic Intermediate Representation (AIR).
/// An Air instance is assumed to already contain all the information needed to
/// evaluate the constraints.
/// For instance, all interaction elements are assumed to be present in it.
/// Therefore, an AIR is generated only after the initial trace commitment phase.
pub trait Air {
    /// The components of the AIR, in the order that fixes the order of
    /// their constraints everywhere.
    open spec fn component_list(&self) -> Seq<&dyn Component> {
        arbitrary()
    }

    fn components(&self) -> (r: Vec<&dyn Component>)
        ensures
            r@ == self.component_list(),
    ;
}

pub trait AirTraceVerifier {
    /// The identifiers of the interaction elements that the components of
    /// the AIR read.
    open spec fn element_ids(&self) -> Seq<Seq<char>> {
        arbitrary()
    }

    /// Draws the interaction elements from the transcript.
    fn interaction_elements<C: Channel>(&self, channel: &mut C) -> (r: InteractionElements)
        ensures
            covers(r@, self.element_ids()),
    ;
}

pub trait AirTraceWriter<B: Backend>: AirTraceVerifier {
    /// Drives the interaction phase of the prover: from the base trace and
    /// the interaction elements, gives the polynomials of the interaction
    /// trace, the batched GKR proof with what the GKR verifier draws from
    /// it, and a secure-field value of the AIR's own (by convention the
    /// total of its lookups).
    fn interact<C: Channel>(
        &self,
        channel: &mut C,
        trace: &ColumnVec<CircleEvaluation<B, BaseField, BitReversedOrder>>,
        elements: &InteractionElements,
    ) -> (Vec<CirclePoly<B>>, GkrBatchProof, GkrArtifact, SecureField)
        requires
            covers(elements@, self.element_ids()),
    ;

    /// The prover's view of the AIR.
    type Prover: AirProver<B>;

    fn to_air_prover(&self) -> &Self::Prover;
}

pub trait AirProver<B: Backend>: Air {
    /// The components of the AIR as the prover sees them: the same
    /// components in the same order.
    open spec fn prover_component_list(&self) -> Seq<&dyn ComponentProver<B>> {
        arbitrary()
    }

    fn prover_components(&self) -> (r: Vec<&dyn ComponentProver<B>>)
        ensures
            r@ == self.prover_component_list(),
            r@.len() == self.component_list().len(),
            forall|i: int|
                0 <= i < r@.len() ==> (#[trigger] r@[i]).constraint_count()
                    == self.component_list()[i].constraint_count(),
    ;
}

/// A component is a set of trace columns of various sizes along with a set of
/// constraints on them.
///
/// What a component is, is for its implementation to say, through the
/// `spec` functions of the trait: of one that leaves them as they are,
/// nothing is known but what the contracts of the methods state.
pub trait Component {
    /// The number of constraints of the component.
    open spec fn constraint_count(&self) -> nat {
        arbitrary()
    }

    /// The bound on the degree of the constraint quotients of the
    /// component, as a binary logarithm.
    open spec fn log_degree_bound(&self) -> u32 {
        arbitrary()
    }

    /// The number of columns of each commitment tree of the component.
    open spec fn trace_shape(&self) -> Seq<nat> {
        arbitrary()
    }

    /// The identifiers of the interaction elements that the component reads.
    open spec fn element_ids(&self) -> Seq<Seq<char>> {
        arbitrary()
    }

    /// The constraint quotients of the component at `point`, one for each
    /// constraint, in the order of the constraints.
    open spec fn quotients_at_point(
        &self,
        point: CirclePoint<SecureField>,
        mask: Seq<Vec<SecureField>>,
        interaction_elements: Map<Seq<char>, Quartic>,
        lookup_values: Map<Seq<char>, Quartic>,
    ) -> Seq<Quartic> {
        arbitrary()
    }

    fn n_constraints(&self) -> (r: usize)
        ensures
            r == self.constraint_count(),
    ;

    fn max_constraint_log_degree_bound(&self) -> (r: u32)
        ensures
            r == self.log_degree_bound(),
    ;

    /// Returns the number of interaction phases done by the component.
    fn n_interaction_phases(&self) -> u32;

    /// Returns the degree bounds of each trace column.
    fn trace_log_degree_bounds(&self) -> (r: TreeVec<ColumnVec<u32>>)
        ensures
            tree_shape(r) == self.trace_shape(),
    ;

    /// Returns, for each trace column, the points at which the column has
    /// to be opened to evaluate the constraints at `point`.
    fn mask_points(&self, point: CirclePoint<SecureField>) -> (r: TreeVec<
        ColumnVec<Vec<CirclePoint<SecureField>>>,
    >)
        ensures
            tree_shape(r) == self.trace_shape(),
    ;

    /// Returns the ids of the interaction elements used by the component.
    fn interaction_element_ids(&self) -> (r: Vec<String>)
        ensures
            ids_of(r@) == self.element_ids(),
    ;

    /// Evaluates the constraint quotients combination of the component, given the mask values:
    /// accumulates the quotient of each constraint, in the order of the constraints.
    fn evaluate_constraint_quotients_at_point(
        &self,
        point: CirclePoint<SecureField>,
        mask: &ColumnVec<Vec<SecureField>>,
        evaluation_accumulator: &mut PointEvaluationAccumulator,
        interaction_elements: &InteractionElements,
        lookup_values: &LookupValues,
    )
        requires
            mask@.len() == n_columns(self.trace_shape()),
            covers(interaction_elements@, self.element_ids()),
            old(evaluation_accumulator).evaluations().len() + self.constraint_count()
                <= usize::MAX,
        ensures
            final(evaluation_accumulator).random_coeff()
                == old(evaluation_accumulator).random_coeff(),
            final(evaluation_accumulator).evaluations().len()
                == old(evaluation_accumulator).evaluations().len() + self.constraint_count(),
            final(evaluation_accumulator).evaluations() == old(evaluation_accumulator).evaluations()
                + self.quotients_at_point(
                point,
                mask@,
                interaction_elements@,
                lookup_values@,
            ),
    ;

    /// Whether the claims of the top GKR layer of each lookup instance of
    /// the component are what the component's lookups give at `point`.
    open spec fn layer_claims_hold(
        &self,
        point: Seq<SecureField>,
        interaction_elements: Map<Seq<char>, Quartic>,
        claims_by_instance: Seq<Vec<SecureField>>,
    ) -> bool {
        arbitrary()
    }

    /// Checks the claims of the top GKR layer, one list for each lookup
    /// instance of the component, against the lookups that the component
    /// declares. An error names the first instance whose claims fail and
    /// says how.
    fn verify_succinct_multilinear_gkr_layer_claims(
        &self,
        point: &[SecureField],
        interaction_elements: &InteractionElements,
        gkr_claims_to_verify_by_instance: &[Vec<SecureField>],
    ) -> (r: Result<(), GkrClaimError>)
        requires
            covers(interaction_elements@, self.element_ids()),
        ensures
            r is Ok <==> self.layer_claims_hold(
                point@,
                interaction_elements@,
                gkr_claims_to_verify_by_instance@,
            ),
    ;

    /// Groups the claims on univariate openings that the GKR claims of the
    /// instances come down to by the number of variables of the instance.
    fn eval_at_point_iop_claims_by_n_variables(
        &self,
        multilinear_eval_claims_by_instance: &[Vec<SecureField>],
    ) -> BTreeMap<u32, Vec<SecureField>>;

    /// The configuration of each lookup instance of the component, for the
    /// GKR batcher.
    fn gkr_lookup_instance_configs(&self) -> Vec<LookupInstanceConfig>;
}

/// How the claims of a lookup instance failed.
#[derive(Debug, Clone, Copy, PartialEq, Eq, Structural)]
pub enum GkrClaimErrorKind {
    /// There are not as many lists of claims as lookup instances.
    InstanceCount,
    /// The lookup of the instance has no multilinear evaluator.
    NotMultilinear,
    /// The instance has not as many claims as its lookup has columns.
    ClaimCount,
    /// A claim is not the value of its column at the point.
    ClaimMismatch,
}

/// A failed check of GKR layer claims: what went wrong, and at which lookup
/// instance.
#[derive(Debug, Clone, Copy, PartialEq, Eq, Structural)]
pub struct GkrClaimError {
    pub kind: GkrClaimErrorKind,
    pub instance: usize,
}

pub struct LookupInstanceConfig {
    pub variant: Gate,
    pub is_lookup_table: bool,
}

/// The lookup instances of `configs` by side: first the places of those
/// that are lookup tables, then the places of those that refer to one, each
/// in rising order.
pub fn split_lookup_instances(configs: &Vec<LookupInstanceConfig>) -> (r: (Vec<usize>, Vec<usize>))
    ensures
        is_side(r.0@, configs@, true),
        is_side(r.1@, configs@, false),
{
    let mut tables: Vec<usize> = Vec::new();
    let mut references: Vec<usize> = Vec::new();
    let mut i: usize = 0;
    while i < configs.len()
        invariant
            i <= configs@.len(),
            is_side(tables@, configs@.subrange(0, i as int), true),
            is_side(references@, configs@.subrange(0, i as int), false),
        decreases configs@.len() - i,
    {
        let ghost seen = configs@.subrange(0, i as int);
        let ghost next = configs@.subrange(0, i + 1);
        let ghost old_tables = tables@;
        let ghost old_references = references@;
        if configs[i].is_lookup_table {
            tables.push(i);
        } else {
            references.push(i);
        }
        proof {
            assert forall|k: int| 0 <= k < seen.len() implies next[k] == seen[k] by {}
            assert(next[i as int] == configs@[i as int]);
            lemma_side_grows(old_tables, seen, next, true);
            lemma_side_grows(old_references, seen, next, false);
            assert(is_side(tables@, next, true));
            assert(is_side(references@, next, false));
        }
        i = i + 1;
    }
    assert(configs@.subrange(0, configs@.len() as int) =~= configs@);
    (tables, references)
}

/// Whether `places` lists, in rising order, exactly the places of the
/// lookup instances of `configs` that are lookup tables (for `tables`) or
/// those that are not (otherwise).
pub open spec fn is_side(
    places: Seq<usize>,
    configs: Seq<LookupInstanceConfig>,
    tables: bool,
) -> bool {
    &&& forall|k: int|
        0 <= k < places.len() ==> (#[trigger] places[k]) < configs.len()
            && configs[places[k] as int].is_lookup_table == tables
    &&& forall|k: int, m: int| 0 <= k < m < places.len() ==> places[k] < places[m]
    &&& forall|i: int|
        0 <= i < configs.len() && (#[trigger] configs[i]).is_lookup_table == tables ==> exists|
            k: int,
        |
            0 <= k < places.len() && places[k] == i
}

/// One more lookup instance adds its place to its own side and leaves the
/// other side as it is.
proof fn lemma_side_grows(
    places: Seq<usize>,
    seen: Seq<LookupInstanceConfig>,
    next: Seq<LookupInstanceConfig>,
    tables: bool,
)
    requires
        is_side(places, seen, tables),
        next.len() == seen.len() + 1,
        next.len() <= usize::MAX,
        forall|k: int| 0 <= k < seen.len() ==> next[k] == seen[k],
    ensures
        next[seen.len() as int].is_lookup_table == tables ==> is_side(
            places.push(seen.len() as usize),
            next,
            tables,
        ),
        next[seen.len() as int].is_lookup_table != tables ==> is_side(places, next, tables),
{
    let last = seen.len() as int;
    if next[last].is_lookup_table == tables {
        let grown = places.push(last as usize);
        assert forall|i: int|
            0 <= i < next.len() && (#[trigger] next[i]).is_lookup_table == tables implies exists|
            k: int,
        |
            0 <= k < grown.len() && grown[k] == i by {
            if i < last {
                assert(seen[i].is_lookup_table == tables);
                let k = choose|k: int| 0 <= k < places.len() && places[k] == i;
                assert(grown[k] == i);
            } else {
                assert(grown[places.len() as int] == i);
            }
        }
        assert forall|k: int| 0 <= k < grown.len() implies (#[trigger] grown[k]) < next.len()
            && next[grown[k] as int].is_lookup_table == tables by {
            if k < places.len() {
                assert(grown[k] == places[k]);
            }
        }
        assert forall|k: int, m: int| 0 <= k < m < grown.len() implies grown[k] < grown[m] by {
            assert(grown[k] == places[k]);
            if m < places.len() {
                assert(grown[m] == places[m]);
            }
        }
    } else {
        assert forall|i: int|
            0 <= i < next.len() && (#[trigger] next[i]).is_lookup_table == tables implies exists|
            k: int,
        |
            0 <= k < places.len() && places[k] == i by {
            assert(seen[i].is_lookup_table == tables);
        }
    }
}

pub trait MultilinearPolynomial {
    /// The value of the polynomial at `point`.
    open spec fn value(
        &self,
        interaction_elements: Map<Seq<char>, Quartic>,
        point: Seq<SecureField>,
    ) -> Quartic {
        arbitrary()
    }

    fn eval(&self, interaction_elements: &InteractionElements, point: &[SecureField]) -> (r:
        SecureField)
        ensures
            r@ == self.value(interaction_elements@, point@),
    ;
}

pub trait TraceExprPolynomial {
    /// The value of the expression on the opened values `mask`.
    open spec fn value(
        &self,
        interaction_elements: Map<Seq<char>, Quartic>,
        mask: Seq<Vec<SecureField>>,
    ) -> Quartic {
        arbitrary()
    }

    fn eval(
        &self,
        interaction_elements: &InteractionElements,
        mask: &ColumnVec<Vec<SecureField>>,
    ) -> (r: SecureField)
        ensures
            r@ == self.value(interaction_elements@, mask@),
    ;
}

/// Represents the polynomial that has the same value at every point.
pub struct ConstantPolynomial(SecureField);

impl ConstantPolynomial {
    /// The value of the polynomial.
    pub closed spec fn constant(self) -> Quartic {
        self.0@
    }

    /// The polynomial with value `value` everywhere.
    pub fn new(value: SecureField) -> (r: Self)
        ensures
            r.constant() == value@,
    {
        Self(value)
    }

    pub fn one() -> (r: Self)
        ensures
            r.constant() == crate::fields::qm31::quartic_one(),
    {
        Self(SecureField::one())
    }
}

impl MultilinearPolynomial for ConstantPolynomial {
    open spec fn value(
        &self,
        interaction_elements: Map<Seq<char>, Quartic>,
        point: Seq<SecureField>,
    ) -> Quartic {
        self.constant()
    }

    fn eval(&self, _interaction_elements: &InteractionElements, point: &[SecureField]) -> (r:
        SecureField) {
        self.0
    }
}

pub enum ColumnEvaluator {
    Univariate(Box<dyn TraceExprPolynomial>),
    Multilinear(Box<dyn MultilinearPolynomial>),
}

impl ColumnEvaluator {
    /// The value of a multilinear column at `point`; none for a column that
    /// is given as an expression of the trace.
    pub fn eval_multilinear(
        &self,
        interaction_elements: &InteractionElements,
        point: &[SecureField],
    ) -> (r: Option<SecureField>)
        ensures
            match *self {
                ColumnEvaluator::Multilinear(polynomial) => r is Some && r->0@ == polynomial.value(
                    interaction_elements@,
                    point@,
                ),
                ColumnEvaluator::Univariate(_) => r is None,
            },
    {
        match self {
            ColumnEvaluator::Multilinear(polynomial) => Some(
                polynomial.eval(interaction_elements, point),
            ),
            ColumnEvaluator::Univariate(_) => None,
        }
    }

    /// The value of a column that is given as an expression of the trace,
    /// on the opened values `mask`; none for a multilinear column.
    pub fn eval_univariate(
        &self,
        interaction_elements: &InteractionElements,
        mask: &ColumnVec<Vec<SecureField>>,
    ) -> (r: Option<SecureField>)
        ensures
            match *self {
                ColumnEvaluator::Univariate(expression) => r is Some && r->0@ == expression.value(
                    interaction_elements@,
                    mask@,
                ),
                ColumnEvaluator::Multilinear(_) => r is None,
            },
    {
        match self {
            ColumnEvaluator::Univariate(expression) => Some(
                expression.eval(interaction_elements, mask),
            ),
            ColumnEvaluator::Multilinear(_) => None,
        }
    }
}

pub enum LookupEvaluator {
    GrandProduct(ColumnEvaluator),
    LogUp { numerator: ColumnEvaluator, denominator: ColumnEvaluator },
}

pub enum LookupVariant {
    /// Makes reference to values in a lookup table.
    Reference,
    /// Is a lookup table.
    Table,
}

pub struct LookupConfig {
    pub variant: LookupVariant,
    pub evaluator: LookupEvaluator,
}

impl LookupConfig {
    pub fn new(variant: LookupVariant, evaluator: LookupEvaluator) -> (r: Self)
        ensures
            r.variant == variant,
            r.evaluator == evaluator,
    {
        Self { variant, evaluator }
    }

    /// The GKR gate of the lookup and the side of it that the instance is
    /// on.
    pub fn instance_config(&self) -> (r: LookupInstanceConfig)
        ensures
            r.variant == (match self.evaluator {
                LookupEvaluator::GrandProduct(_) => Gate::GrandProduct,
                LookupEvaluator::LogUp { .. } => Gate::LogUp,
            }),
            r.is_lookup_table == (self.variant is Table),
    {
        let variant = match &self.evaluator {
            LookupEvaluator::GrandProduct(_) => Gate::GrandProduct,
            LookupEvaluator::LogUp { .. } => Gate::LogUp,
        };
        let is_lookup_table = match &self.variant {
            LookupVariant::Table => true,
            LookupVariant::Reference => false,
        };
        LookupInstanceConfig { variant, is_lookup_table }
    }
}

/// The values that the claims of the top GKR layer of lookup instance `i`
/// must have at `point`: the value of the one column of a grand product,
/// or those of the numerator and the denominator of a LogUp. There are none
/// if a column is not given as a multilinear polynomial.
pub open spec fn expected_claims(
    lookups: Seq<LookupConfig>,
    interaction_elements: Map<Seq<char>, Quartic>,
    point: Seq<SecureField>,
    i: int,
) -> Option<Seq<Quartic>> {
    match lookups[i].evaluator {
        LookupEvaluator::GrandProduct(ColumnEvaluator::Multilinear(column)) => Some(
            seq![column.value(interaction_elements, point)],
        ),
        LookupEvaluator::LogUp {
            numerator: ColumnEvaluator::Multilinear(numerator),
            denominator: ColumnEvaluator::Multilinear(denominator),
        } => Some(
            seq![
                numerator.value(interaction_elements, point),
                denominator.value(interaction_elements, point),
            ],
        ),
        _ => None,
    }
}

/// How the claims `claims` of lookup instance `i` fail, if they do.
pub open spec fn claim_failure_at(
    lookups: Seq<LookupConfig>,
    interaction_elements: Map<Seq<char>, Quartic>,
    point: Seq<SecureField>,
    claims: Seq<Vec<SecureField>>,
    i: int,
) -> Option<GkrClaimErrorKind> {
    match expected_claims(lookups, interaction_elements, point, i) {
        None => Some(GkrClaimErrorKind::NotMultilinear),
        Some(expected) => if claims[i]@.len() != expected.len() {
            Some(GkrClaimErrorKind::ClaimCount)
        } else if exists|k: int|
            0 <= k < expected.len() && #[trigger] claims[i]@[k]@ != expected[k] {
            Some(GkrClaimErrorKind::ClaimMismatch)
        } else {
            None
        },
    }
}

/// Checks the claims of the top GKR layer, one list for each of the lookup
/// instances `lookups`, at `point`: each claim must be the value there of
/// the column that it is a claim on. An error names the first instance
/// whose claims fail, and says how; if there is not one list of claims for
/// each lookup, it names the first instance that has no partner.
pub fn verify_layer_claims(
    lookups: &Vec<LookupConfig>,
    point: &[SecureField],
    interaction_elements: &InteractionElements,
    claims_by_instance: &[Vec<SecureField>],
) -> (r: Result<(), GkrClaimError>)
    ensures
        match r {
            Ok(()) => {
                &&& claims_by_instance@.len() == lookups@.len()
                &&& forall|i: int|
                    0 <= i < lookups@.len() ==> claim_failure_at(
                        lookups@,
                        interaction_elements@,
                        point@,
                        claims_by_instance@,
                        i,
                    ) is None
            },
            Err(error) => if claims_by_instance@.len() != lookups@.len() {
                &&& error.kind == GkrClaimErrorKind::InstanceCount
                &&& error.instance == if claims_by_instance@.len() < lookups@.len() {
                    claims_by_instance@.len()
                } else {
                    lookups@.len()
                }
            } else {
                &&& error.instance < lookups@.len()
                &&& forall|i: int|
                    0 <= i < error.instance ==> claim_failure_at(
                        lookups@,
                        interaction_elements@,
                        point@,
                        claims_by_instance@,
                        i,
                    ) is None
                &&& claim_failure_at(
                    lookups@,
                    interaction_elements@,
                    point@,
                    claims_by_instance@,
                    error.instance as int,
                ) == Some(error.kind)
            },
        },
{
    if claims_by_instance.len() != lookups.len() {
        let instance: usize = if claims_by_instance.len() < lookups.len() {
            claims_by_instance.len()
        } else {
            lookups.len()
        };
        return Err(GkrClaimError { kind: GkrClaimErrorKind::InstanceCount, instance });
    }
    let mut i: usize = 0;
    while i < lookups.len()
        invariant
            i <= lookups@.len(),
            claims_by_instance@.len() == lookups@.len(),
            forall|k: int|
                0 <= k < i ==> claim_failure_at(
                    lookups@,
                    interaction_elements@,
                    point@,
                    claims_by_instance@,
                    k,
                ) is None,
        decreases lookups@.len() - i,
    {
        let claims: &Vec<SecureField> = &claims_by_instance[i];
        let first: Option<SecureField>;
        let second: Option<SecureField>;
        let n_columns: usize;
        match &lookups[i].evaluator {
            LookupEvaluator::GrandProduct(column) => {
                first = column.eval_multilinear(interaction_elements, point);
                second = first;
                n_columns = 1;
            },
            LookupEvaluator::LogUp { numerator, denominator } => {
                first = numerator.eval_multilinear(interaction_elements, point);
                second = denominator.eval_multilinear(interaction_elements, point);
                n_columns = 2;
            },
        }
        let ghost expected = expected_claims(lookups@, interaction_elements@, point@, i as int);
        match (first, second) {
            (Some(first), Some(second)) => {
                assert(expected is Some);
                assert(expected->0.len() == n_columns);
                assert(expected->0[0] == first@);
                assert(n_columns == 2 ==> expected->0[1] == second@);
                if claims.len() != n_columns {
                    return Err(GkrClaimError { kind: GkrClaimErrorKind::ClaimCount, instance: i });
                }
                let first_holds: bool = claims[0] == first;
                let second_holds: bool = n_columns == 1 || claims[1] == second;
                proof {
                    if claims@[0]@ == first@ {
                        SecureField::lemma_same_residues(claims@[0], first);
                    }
                    if n_columns == 2 && claims@[1]@ == second@ {
                        SecureField::lemma_same_residues(claims@[1], second);
                    }
                }
                if !(first_holds && second_holds) {
                    proof {
                        let k: int = if first_holds {
                            1
                        } else {
                            0
                        };
                        assert(claims_by_instance@[i as int]@[k]@ != expected->0[k]);
                    }
                    return Err(
                        GkrClaimError { kind: GkrClaimErrorKind::ClaimMismatch, instance: i },
                    );
                }
                assert(claim_failure_at(
                    lookups@,
                    interaction_elements@,
                    point@,
                    claims_by_instance@,
                    i as int,
                ) is None);
            },
            _ => {
                assert(expected is None);
                return Err(GkrClaimError { kind: GkrClaimErrorKind::NotMultilinear, instance: i });
            },
        }
        i = i + 1;
    }
    Ok(())
}

pub trait ComponentTraceWriter<B: Backend> {
    fn write_interaction_trace(
        &self,
        trace: &ColumnVec<&CircleEvaluation<B, BaseField, BitReversedOrder>>,
        elements: &InteractionElements,
    ) -> ColumnVec<SecureEvaluation<B>>;
}

pub trait ComponentProver<B: Backend>: Component {
    /// The columns, by `log_size`, that the component leaves in an
    /// accumulator with random coefficient `random_coeff` that held the
    /// columns `before`, when its constraints stand from place `first` on
    /// among `total` contributions: the columns with the constraint
    /// quotients of the component over `trace` added.
    open spec fn columns_on_domain(
        &self,
        trace: &ComponentTrace<'_, B>,
        random_coeff: Quartic,
        first: nat,
        total: nat,
        before: Seq<Seq<Seq<Quartic>>>,
        interaction_elements: Map<Seq<char>, Quartic>,
        lookup_values: Map<Seq<char>, Quartic>,
    ) -> Seq<Seq<Seq<Quartic>>> {
        arbitrary()
    }

    /// Evaluates the constraint quotients of the component on the evaluation domain.
    /// Accumulates quotients in `evaluation_accumulator`.
    fn evaluate_constraint_quotients_on_domain(
        &self,
        trace: &ComponentTrace<'_, B>,
        evaluation_accumulator: &mut DomainEvaluationAccumulator,
        interaction_elements: &InteractionElements,
        lookup_values: &LookupValues,
    )
        requires
            old(evaluation_accumulator).wf(),
            covers(interaction_elements@, self.element_ids()),
            old(evaluation_accumulator).n_reserved() + self.constraint_count()
                <= old(evaluation_accumulator).n_total(),
            self.log_degree_bound() <= old(evaluation_accumulator).max_log_size(),
        ensures
            final(evaluation_accumulator).wf(),
            final(evaluation_accumulator).random_coeff()
                == old(evaluation_accumulator).random_coeff(),
            final(evaluation_accumulator).n_total() == old(evaluation_accumulator).n_total(),
            final(evaluation_accumulator).max_log_size()
                == old(evaluation_accumulator).max_log_size(),
            final(evaluation_accumulator).n_reserved() == old(evaluation_accumulator).n_reserved()
                + self.constraint_count(),
            final(evaluation_accumulator).columns() == self.columns_on_domain(
                trace,
                old(evaluation_accumulator).random_coeff(),
                old(evaluation_accumulator).n_reserved(),
                old(evaluation_accumulator).n_total(),
                old(evaluation_accumulator).columns(),
                interaction_elements@,
                lookup_values@,
            ),
    ;

    /// Extracts from the trace the values of the lookups of the component
    /// that the constraints of later phases read: the lookup values of the
    /// component over the trace, which are none unless the component says
    /// otherwise. The method as it is provided here gives none.
    fn lookup_values(&self, _trace: &ComponentTrace<'_, B>) -> (r: LookupValues)
        ensures
            r@ == self.lookup_values_of(_trace) || r@ == Map::<Seq<char>, Quartic>::empty(),
    {
        LookupValues::default()
    }

    /// The lookup values of the component over `trace`, each under its
    /// identifier: none, unless the component says otherwise.
    open spec fn lookup_values_of(&self, trace: &ComponentTrace<'_, B>) -> Map<
        Seq<char>,
        Quartic,
    > {
        Map::empty()
    }
}

/// A component trace is a set of polynomials for each column on that component.
/// Each polynomial is stored both in a coefficients, and evaluations form (for efficiency)
pub struct ComponentTrace<'a, B: Backend> {
    /// Polynomials for each column.
    pub polys: TreeVec<ColumnVec<&'a CirclePoly<B>>>,
    /// Evaluations for each column (evaluated on the commitment domains).
    pub evals: TreeVec<ColumnVec<&'a CircleEvaluation<B, BaseField, BitReversedOrder>>>,
}

impl<'a, B: Backend> ComponentTrace<'a, B> {
    pub fn new(
        polys: TreeVec<ColumnVec<&'a CirclePoly<B>>>,
        evals: TreeVec<ColumnVec<&'a CircleEvaluation<B, BaseField, BitReversedOrder>>>,
    ) -> (r: Self)
        ensures
            r.polys == polys,
            r.evals == evals,
    {
        Self { polys, evals }
    }

    /// Whether the two forms of the trace hold as many trees, and as many
    /// columns in each tree.
    pub fn has_matching_shapes(&self) -> (r: bool)
        ensures
            r == (tree_shape(self.polys) == tree_shape(self.evals)),
    {
        same_shape(&self.polys, &self.evals)
    }
}

} // verus!
