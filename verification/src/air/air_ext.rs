//! What a driver does with an AIR as a whole: it goes through the
//! components in their order, checks what each of them is handed, and
//! gathers what they give.

use crate::air::accumulation::{
    random_linear_combination, DomainEvaluationAccumulator, PointEvaluationAccumulator,
};
use crate::air::{
    covers, ids_of, n_columns, Air, AirProver, Component, ComponentProver, ComponentTrace,
};
use crate::backend::Backend;
use crate::channel::Channel;
use crate::circle::CirclePoint;
use crate::fields::qm31::{Quartic, SecureField};
use crate::pcs::{tree_shape, TreeVec};
use crate::{distinct_ids, ColumnVec, InteractionElements, LookupValues};
use vstd::prelude::*;

verus! {

/// The number of constraints of all of `components` together.
pub open spec fn total_constraints(components: Seq<&dyn Component>) -> nat
    decreases components.len(),
{
    if components.len() == 0 {
        0
    } else {
        total_constraints(components.drop_last()) + components.last().constraint_count()
    }
}

/// The identifiers of the interaction elements of all of `components`, in
/// the order of the components.
pub open spec fn all_element_ids(components: Seq<&dyn Component>) -> Seq<Seq<char>>
    decreases components.len(),
{
    if components.len() == 0 {
        Seq::empty()
    } else {
        all_element_ids(components.drop_last()) + components.last().element_ids()
    }
}

/// The constraint quotients at `point` of the first `i` of `components`,
/// each on its mask, in the order of the components.
pub open spec fn quotients_at_point(
    components: Seq<&dyn Component>,
    point: CirclePoint<SecureField>,
    masks: Seq<Vec<Vec<SecureField>>>,
    elements: Map<Seq<char>, Quartic>,
    lookup_values: Map<Seq<char>, Quartic>,
    i: int,
) -> Seq<Quartic>
    decreases i,
{
    if i <= 0 {
        Seq::empty()
    } else {
        quotients_at_point(components, point, masks, elements, lookup_values, i - 1) + components[i
            - 1].quotients_at_point(point, masks[i - 1]@, elements, lookup_values)
    }
}

/// Why a component cannot be handed what the driver holds for it.
#[derive(Debug, Clone, Copy, PartialEq, Eq, Structural)]
pub enum ComponentErrorKind {
    /// The mask has not one list of values for each column of the trace.
    MaskShape,
    /// An interaction element that the component reads is missing.
    MissingInteractionElement,
    /// More constraints than can be counted, or than the accumulator was
    /// made for.
    TooManyConstraints,
    /// The degree bound of the component is above the largest domain of the
    /// accumulator.
    DegreeBound,
}

/// Why the composition polynomial could not be evaluated.
#[derive(Debug, Clone, Copy, PartialEq, Eq, Structural)]
pub enum CompositionError {
    /// There is not one mask for each component.
    ComponentCount,
    /// Component `component`, the first that fails, fails in the way `kind`.
    Component { component: usize, kind: ComponentErrorKind },
}

/// What keeps component `i` of `components` from evaluating its
/// constraints on its mask with `elements`, after the components before
/// it, if anything does.
pub open spec fn failure_at(
    components: Seq<&dyn Component>,
    masks: Seq<Vec<Vec<SecureField>>>,
    elements: Map<Seq<char>, Quartic>,
    i: int,
) -> Option<ComponentErrorKind> {
    if masks[i]@.len() != n_columns(components[i].trace_shape()) {
        Some(ComponentErrorKind::MaskShape)
    } else if !covers(elements, components[i].element_ids()) {
        Some(ComponentErrorKind::MissingInteractionElement)
    } else if total_constraints(components.subrange(0, i)) + components[i].constraint_count()
        > usize::MAX {
        Some(ComponentErrorKind::TooManyConstraints)
    } else {
        None
    }
}

/// There is an element under each identifier that a list of strings
/// holds exactly if there is one under each string of the list.
proof fn lemma_covers_ids(elements: Map<Seq<char>, Quartic>, ids: Seq<String>)
    ensures
        covers(elements, ids_of(ids)) <==> forall|k: int|
            0 <= k < ids.len() ==> elements.contains_key(#[trigger] ids[k]@),
{
    if covers(elements, ids_of(ids)) {
        assert forall|k: int| 0 <= k < ids.len() implies elements.contains_key(
            #[trigger] ids[k]@,
        ) by {
            assert(ids_of(ids)[k] == ids[k]@);
        }
    }
    if forall|k: int| 0 <= k < ids.len() ==> elements.contains_key(#[trigger] ids[k]@) {
        assert forall|k: int| 0 <= k < ids_of(ids).len() implies elements.contains_key(
            #[trigger] ids_of(ids)[k],
        ) by {
            assert(ids_of(ids)[k] == ids[k]@);
        }
    }
}

/// The number of columns of all trees of `bounds` together, if it can be
/// counted.
fn count_columns(bounds: &TreeVec<ColumnVec<u32>>) -> (r: Option<usize>)
    ensures
        match r {
            Some(n) => n == n_columns(tree_shape(*bounds)),
            None => n_columns(tree_shape(*bounds)) > usize::MAX,
        },
{
    let ghost shape = tree_shape(*bounds);
    let mut total: usize = 0;
    let mut t: usize = 0;
    assert(shape.subrange(0, 0) =~= Seq::<nat>::empty());
    while t < bounds.0.len()
        invariant
            t <= bounds.0@.len(),
            shape == tree_shape(*bounds),
            total == n_columns(shape.subrange(0, t as int)),
        decreases bounds.0@.len() - t,
    {
        proof {
            assert(shape.subrange(0, t + 1).drop_last() =~= shape.subrange(0, t as int));
            assert(shape.subrange(0, t + 1).last() == bounds.0@[t as int]@.len());
        }
        match total.checked_add(bounds.0[t].len()) {
            Some(sum) => {
                total = sum;
            },
            None => {
                proof {
                    lemma_n_columns_grows(shape, t + 1);
                }
                return None;
            },
        }
        t = t + 1;
    }
    assert(shape.subrange(0, shape.len() as int) =~= shape);
    Some(total)
}

/// The columns of the first trees of a shape are among the columns of all.
proof fn lemma_n_columns_grows(shape: Seq<nat>, t: int)
    requires
        0 <= t <= shape.len(),
    ensures
        n_columns(shape.subrange(0, t)) <= n_columns(shape),
    decreases shape.len() - t,
{
    if t < shape.len() {
        assert(shape.subrange(0, t + 1).drop_last() =~= shape.subrange(0, t));
        lemma_n_columns_grows(shape, t + 1);
    } else {
        assert(shape.subrange(0, t) =~= shape);
    }
}

/// Evaluates the composition polynomial of the AIR at `point`: the random
/// linear combination, with coefficient `random_coeff`, of the constraint
/// quotients of all components, taken in the order of the components and,
/// within a component, in the order of its constraints.
/// `mask_values` holds the opened values of each component. A component
/// is handed its mask only if the mask has a list of values for each of
/// its columns, every interaction element that it reads is there, and its
/// constraints can still be counted; the first component of which this
/// fails is reported.
pub fn eval_composition_polynomial_at_point<A: Air>(
    air: &A,
    point: CirclePoint<SecureField>,
    mask_values: &Vec<ColumnVec<Vec<SecureField>>>,
    random_coeff: SecureField,
    interaction_elements: &InteractionElements,
    lookup_values: &LookupValues,
) -> (r: Result<SecureField, CompositionError>)
    ensures
        match r {
            Ok(value) => {
                &&& mask_values@.len() == air.component_list().len()
                &&& forall|i: int|
                    0 <= i < air.component_list().len() ==> failure_at(
                        air.component_list(),
                        mask_values@,
                        interaction_elements@,
                        i,
                    ) is None
                &&& value@ == random_linear_combination(
                    random_coeff@,
                    quotients_at_point(
                        air.component_list(),
                        point,
                        mask_values@,
                        interaction_elements@,
                        lookup_values@,
                        air.component_list().len() as int,
                    ),
                )
            },
            Err(CompositionError::ComponentCount) => mask_values@.len()
                != air.component_list().len(),
            Err(CompositionError::Component { component, kind }) => {
                &&& mask_values@.len() == air.component_list().len()
                &&& component < air.component_list().len()
                &&& forall|i: int|
                    0 <= i < component ==> failure_at(
                        air.component_list(),
                        mask_values@,
                        interaction_elements@,
                        i,
                    ) is None
                &&& failure_at(
                    air.component_list(),
                    mask_values@,
                    interaction_elements@,
                    component as int,
                ) == Some(kind)
            },
        },
{
    let components: Vec<&dyn Component> = air.components();
    if components.len() != mask_values.len() {
        return Err(CompositionError::ComponentCount);
    }
    let mut evaluation_accumulator = PointEvaluationAccumulator::new(random_coeff);
    let mut i: usize = 0;
    assert(components@.subrange(0, 0) =~= Seq::<&dyn Component>::empty());
    while i < components.len()
        invariant
            i <= components@.len(),
            components@ == air.component_list(),
            mask_values@.len() == components@.len(),
            evaluation_accumulator.random_coeff() == random_coeff@,
            evaluation_accumulator.evaluations().len() == total_constraints(
                components@.subrange(0, i as int),
            ),
            evaluation_accumulator.evaluations() == quotients_at_point(
                components@,
                point,
                mask_values@,
                interaction_elements@,
                lookup_values@,
                i as int,
            ),
            forall|k: int|
                0 <= k < i ==> failure_at(components@, mask_values@, interaction_elements@, k)
                    is None,
        decreases components@.len() - i,
    {
        let mask: &ColumnVec<Vec<SecureField>> = &mask_values[i];
        proof {
            assert(components@.subrange(0, i + 1).drop_last() =~= components@.subrange(
                0,
                i as int,
            ));
            assert(components@.subrange(0, i + 1).last() == components@[i as int]);
        }
        let bounds = components[i].trace_log_degree_bounds();
        let n_masks: usize = mask.len();
        let fits = match count_columns(&bounds) {
            Some(n) => n == n_masks,
            None => false,
        };
        if !fits {
            assert(failure_at(components@, mask_values@, interaction_elements@, i as int) == Some(
                ComponentErrorKind::MaskShape,
            ));
            return Err(
                CompositionError::Component { component: i, kind: ComponentErrorKind::MaskShape },
            );
        }
        let ids = components[i].interaction_element_ids();
        proof {
            lemma_covers_ids(interaction_elements@, ids@);
        }
        if !interaction_elements.contains_all(&ids) {
            assert(failure_at(components@, mask_values@, interaction_elements@, i as int) == Some(
                ComponentErrorKind::MissingInteractionElement,
            ));
            return Err(
                CompositionError::Component {
                    component: i,
                    kind: ComponentErrorKind::MissingInteractionElement,
                },
            );
        }
        let n_constraints: usize = components[i].n_constraints();
        if evaluation_accumulator.n_accumulated().checked_add(n_constraints).is_none() {
            assert(failure_at(components@, mask_values@, interaction_elements@, i as int) == Some(
                ComponentErrorKind::TooManyConstraints,
            ));
            return Err(
                CompositionError::Component {
                    component: i,
                    kind: ComponentErrorKind::TooManyConstraints,
                },
            );
        }
        assert(failure_at(components@, mask_values@, interaction_elements@, i as int) is None);
        components[i].evaluate_constraint_quotients_at_point(
            point,
            mask,
            &mut evaluation_accumulator,
            interaction_elements,
            lookup_values,
        );
        i = i + 1;
    }
    assert(components@.subrange(0, components@.len() as int) =~= components@);
    Ok(evaluation_accumulator.finalize())
}

/// Draws an element from the transcript for each of the identifiers
/// `ids`, in one draw of as many elements as there are identifiers, and
/// holds element `i` of the draw under identifier `i`. There is no result
/// if an identifier comes twice; the draw is made all the same.
pub fn draw_interaction_elements<C: Channel>(channel: &mut C, ids: &Vec<String>) -> (r: Option<
    InteractionElements,
>)
    ensures
        *final(channel) == old(channel).after_draw(ids@.len() as usize),
        r is Some <==> forall|i: int, j: int|
            0 <= i < j < ids@.len() ==> ids@[i]@ != ids@[j]@,
        r is Some ==> covers(r->0@, ids_of(ids@)) && r->0@.dom().len() == ids@.len(),
        r is Some ==> forall|i: int|
            0 <= i < ids@.len() ==> r->0@[#[trigger] ids@[i]@] == old(channel).felts_drawn(
                ids@.len() as usize,
            )[i]@,
{
    let felts: Vec<SecureField> = channel.draw_felts(ids.len());
    pair_interaction_elements(ids, &felts)
}

/// The interaction elements that hold element `i` of `felts` under
/// identifier `i` of `ids`. There is no result if there are not as many
/// elements as identifiers, or if an identifier comes twice.
pub fn pair_interaction_elements(ids: &Vec<String>, felts: &Vec<SecureField>) -> (r: Option<
    InteractionElements,
>)
    ensures
        r is Some <==> felts@.len() == ids@.len() && forall|i: int, j: int|
            0 <= i < j < ids@.len() ==> ids@[i]@ != ids@[j]@,
        r is Some ==> covers(r->0@, ids_of(ids@)) && r->0@.dom().len() == ids@.len(),
        r is Some ==> forall|i: int|
            0 <= i < ids@.len() ==> r->0@[#[trigger] ids@[i]@] == felts@[i]@,
{
    if felts.len() != ids.len() {
        return None;
    }
    let mut entries: Vec<(String, SecureField)> = Vec::new();
    let mut i: usize = 0;
    while i < ids.len()
        invariant
            i <= ids@.len(),
            felts@.len() == ids@.len(),
            entries@.len() == i,
            forall|k: int|
                0 <= k < i ==> (#[trigger] entries@[k]).0@ == ids@[k]@ && entries@[k].1
                    == felts@[k],
        decreases ids@.len() - i,
    {
        entries.push((ids[i].clone(), felts[i]));
        i = i + 1;
    }
    proof {
        if distinct_ids(entries@) {
            assert forall|a: int, b: int| 0 <= a < b < ids@.len() implies ids@[a]@ != ids@[b]@ by {
                assert(entries@[a].0@ != entries@[b].0@);
            }
            crate::lemma_entries_map_len(entries@);
            assert forall|k: int| 0 <= k < ids@.len() implies crate::entries_map(
                entries@,
            ).contains_key(#[trigger] ids_of(ids@)[k]) by {
                crate::lemma_entries_map_value(entries@, k);
            }
            assert forall|k: int| 0 <= k < ids@.len() implies crate::entries_map(
                entries@,
            )[#[trigger] ids@[k]@] == felts@[k]@ by {
                crate::lemma_entries_map_value(entries@, k);
            }
        } else {
            let (a, b) = choose|a: int, b: int|
                0 <= a < b < entries@.len() && entries@[a].0@ == entries@[b].0@;
            assert(ids@[a]@ == ids@[b]@);
        }
    }
    InteractionElements::new(entries)
}

/// The identifiers of the interaction elements that the components of the
/// AIR read, in the order of the components.
pub fn interaction_element_ids<A: Air>(air: &A) -> (r: Vec<String>)
    ensures
        ids_of(r@) == all_element_ids(air.component_list()),
{
    let components: Vec<&dyn Component> = air.components();
    let mut all: Vec<String> = Vec::new();
    let mut i: usize = 0;
    assert(components@.subrange(0, 0) =~= Seq::<&dyn Component>::empty());
    assert(ids_of(all@) =~= Seq::<Seq<char>>::empty());
    while i < components.len()
        invariant
            i <= components@.len(),
            ids_of(all@) == all_element_ids(components@.subrange(0, i as int)),
        decreases components@.len() - i,
    {
        let mut ids: Vec<String> = components[i].interaction_element_ids();
        let ghost before = all@;
        let ghost added = ids@;
        proof {
            assert(components@.subrange(0, i + 1).drop_last() =~= components@.subrange(
                0,
                i as int,
            ));
            assert(components@.subrange(0, i + 1).last() == components@[i as int]);
        }
        all.append(&mut ids);
        proof {
            assert(ids_of(all@) =~= ids_of(before) + ids_of(added));
        }
        i = i + 1;
    }
    assert(components@.subrange(0, components@.len() as int) =~= components@);
    all
}

/// The greatest of the degree bounds of `components`; zero if there are
/// none.
pub open spec fn greatest_log_degree_bound(components: Seq<&dyn Component>) -> u32
    decreases components.len(),
{
    if components.len() == 0 {
        0
    } else {
        let before = greatest_log_degree_bound(components.drop_last());
        let last = components.last().log_degree_bound();
        if before >= last {
            before
        } else {
            last
        }
    }
}

/// The bound on the degree of the composition polynomial as a binary
/// logarithm: the greatest bound of the components. An AIR without
/// components has none.
pub fn composition_log_degree_bound<A: Air>(air: &A) -> (r: Option<u32>)
    ensures
        r is Some <==> air.component_list().len() > 0,
        r is Some ==> r->0 == greatest_log_degree_bound(air.component_list()),
{
    let components: Vec<&dyn Component> = air.components();
    if components.len() == 0 {
        return None;
    }
    let mut bound: u32 = 0;
    let mut i: usize = 0;
    assert(components@.subrange(0, 0) =~= Seq::<&dyn Component>::empty());
    while i < components.len()
        invariant
            i <= components@.len(),
            bound == greatest_log_degree_bound(components@.subrange(0, i as int)),
        decreases components@.len() - i,
    {
        proof {
            assert(components@.subrange(0, i + 1).drop_last() =~= components@.subrange(
                0,
                i as int,
            ));
            assert(components@.subrange(0, i + 1).last() == components@[i as int]);
        }
        let next: u32 = components[i].max_constraint_log_degree_bound();
        if next > bound {
            bound = next;
        }
        i = i + 1;
    }
    assert(components@.subrange(0, components@.len() as int) =~= components@);
    Some(bound)
}

/// The number of constraints of all components of the AIR, if it can be
/// counted.
pub fn n_constraints<A: Air>(air: &A) -> (r: Option<usize>)
    ensures
        match r {
            Some(n) => n == total_constraints(air.component_list()),
            None => total_constraints(air.component_list()) > usize::MAX,
        },
{
    let components: Vec<&dyn Component> = air.components();
    let mut total: usize = 0;
    let mut i: usize = 0;
    assert(components@.subrange(0, 0) =~= Seq::<&dyn Component>::empty());
    while i < components.len()
        invariant
            i <= components@.len(),
            components@ == air.component_list(),
            total == total_constraints(components@.subrange(0, i as int)),
        decreases components@.len() - i,
    {
        proof {
            assert(components@.subrange(0, i + 1).drop_last() =~= components@.subrange(
                0,
                i as int,
            ));
            assert(components@.subrange(0, i + 1).last() == components@[i as int]);
        }
        match total.checked_add(components[i].n_constraints()) {
            Some(sum) => {
                total = sum;
            },
            None => {
                proof {
                    assert(total_constraints(components@.subrange(0, i + 1)) == total
                        + components@[i as int].constraint_count());
                    lemma_total_constraints_grows(components@, i + 1);
                }
                return None;
            },
        }
        i = i + 1;
    }
    assert(components@.subrange(0, components@.len() as int) =~= components@);
    Some(total)
}

/// The constraints of the first components are among the constraints of
/// all.
proof fn lemma_total_constraints_grows(components: Seq<&dyn Component>, i: int)
    requires
        0 <= i <= components.len(),
    ensures
        total_constraints(components.subrange(0, i)) <= total_constraints(components),
    decreases components.len() - i,
{
    if i < components.len() {
        assert(components.subrange(0, i + 1).drop_last() =~= components.subrange(0, i));
        lemma_total_constraints_grows(components, i + 1);
    } else {
        assert(components.subrange(0, i) =~= components);
    }
}

/// The number of constraints of the first `i` of the prover's components.
pub open spec fn prover_constraints<B: Backend>(
    components: Seq<&dyn ComponentProver<B>>,
    i: int,
) -> nat
    decreases i,
{
    if i <= 0 {
        0
    } else {
        prover_constraints(components, i - 1) + components[i - 1].constraint_count()
    }
}

/// What keeps component `i` of the prover's components from evaluating its
/// constraints over the domain into an accumulator with domains up to
/// `2^max_log_size`, of which `reserved` of `total` contributions are taken
/// when the first component begins, if anything does.
pub open spec fn prover_failure_at<B: Backend>(
    components: Seq<&dyn ComponentProver<B>>,
    elements: Map<Seq<char>, Quartic>,
    reserved: nat,
    total: nat,
    max_log_size: nat,
    i: int,
) -> Option<ComponentErrorKind> {
    if !covers(elements, components[i].element_ids()) {
        Some(ComponentErrorKind::MissingInteractionElement)
    } else if reserved + prover_constraints(components, i) + components[i].constraint_count()
        > total {
        Some(ComponentErrorKind::TooManyConstraints)
    } else if components[i].log_degree_bound() > max_log_size {
        Some(ComponentErrorKind::DegreeBound)
    } else {
        None
    }
}

/// The columns, by `log_size`, that the first `i` of the prover's
/// components leave, one after the other, in an accumulator with random
/// coefficient `random_coeff` that held the columns `before` with
/// `reserved` of `total` contributions taken: component `k` adds its
/// constraint quotients over trace `k` to what the components before it
/// left.
pub open spec fn columns_on_domain<'a, B: Backend>(
    components: Seq<&dyn ComponentProver<B>>,
    traces: Seq<ComponentTrace<'a, B>>,
    random_coeff: Quartic,
    reserved: nat,
    total: nat,
    before: Seq<Seq<Seq<Quartic>>>,
    elements: Map<Seq<char>, Quartic>,
    lookup_values: Map<Seq<char>, Quartic>,
    i: int,
) -> Seq<Seq<Seq<Quartic>>>
    decreases i,
{
    if i <= 0 {
        before
    } else {
        components[i - 1].columns_on_domain(
            &traces[i - 1],
            random_coeff,
            reserved + prover_constraints(components, i - 1),
            total,
            columns_on_domain(
                components,
                traces,
                random_coeff,
                reserved,
                total,
                before,
                elements,
                lookup_values,
                i - 1,
            ),
            elements,
            lookup_values,
        )
    }
}

/// Evaluates the constraint quotients of all components of the AIR over
/// their domains into `evaluation_accumulator`, in the order of the
/// components, so that each constraint takes the power of the random
/// coefficient that it takes at a point. Component `i` is handed trace `i`
/// of `component_traces`, only if every interaction element that it reads is there, the
/// accumulator has contributions left for its constraints and a domain as
/// large as its degree bound asks for; the first component of which this
/// fails is reported, and the components before it have then added their
/// quotients.
pub fn evaluate_constraint_quotients_on_domain<B: Backend, A: AirProver<B>>(
    air: &A,
    component_traces: &Vec<ComponentTrace<'_, B>>,
    evaluation_accumulator: &mut DomainEvaluationAccumulator,
    interaction_elements: &InteractionElements,
    lookup_values: &LookupValues,
) -> (r: Result<(), CompositionError>)
    requires
        old(evaluation_accumulator).wf(),
    ensures
        final(evaluation_accumulator).wf(),
        final(evaluation_accumulator).random_coeff() == old(evaluation_accumulator).random_coeff(),
        final(evaluation_accumulator).n_total() == old(evaluation_accumulator).n_total(),
        final(evaluation_accumulator).max_log_size() == old(evaluation_accumulator).max_log_size(),
        match r {
            Ok(()) => {
                &&& component_traces@.len() == air.prover_component_list().len()
                &&& forall|i: int|
                    0 <= i < air.prover_component_list().len() ==> prover_failure_at(
                        air.prover_component_list(),
                        interaction_elements@,
                        old(evaluation_accumulator).n_reserved(),
                        old(evaluation_accumulator).n_total(),
                        old(evaluation_accumulator).max_log_size(),
                        i,
                    ) is None
                &&& final(evaluation_accumulator).n_reserved()
                    == old(evaluation_accumulator).n_reserved() + prover_constraints(
                    air.prover_component_list(),
                    air.prover_component_list().len() as int,
                )
                &&& final(evaluation_accumulator).columns() == columns_on_domain(
                    air.prover_component_list(),
                    component_traces@,
                    old(evaluation_accumulator).random_coeff(),
                    old(evaluation_accumulator).n_reserved(),
                    old(evaluation_accumulator).n_total(),
                    old(evaluation_accumulator).columns(),
                    interaction_elements@,
                    lookup_values@,
                    air.prover_component_list().len() as int,
                )
            },
            Err(CompositionError::ComponentCount) => {
                &&& component_traces@.len() != air.prover_component_list().len()
                &&& final(evaluation_accumulator).n_reserved()
                    == old(evaluation_accumulator).n_reserved()
                &&& final(evaluation_accumulator).columns()
                    == old(evaluation_accumulator).columns()
            },
            Err(CompositionError::Component { component, kind }) => {
                &&& component_traces@.len() == air.prover_component_list().len()
                &&& component < air.prover_component_list().len()
                &&& forall|i: int|
                    0 <= i < component ==> prover_failure_at(
                        air.prover_component_list(),
                        interaction_elements@,
                        old(evaluation_accumulator).n_reserved(),
                        old(evaluation_accumulator).n_total(),
                        old(evaluation_accumulator).max_log_size(),
                        i,
                    ) is None
                &&& prover_failure_at(
                    air.prover_component_list(),
                    interaction_elements@,
                    old(evaluation_accumulator).n_reserved(),
                    old(evaluation_accumulator).n_total(),
                    old(evaluation_accumulator).max_log_size(),
                    component as int,
                ) == Some(kind)
                &&& final(evaluation_accumulator).n_reserved()
                    == old(evaluation_accumulator).n_reserved() + prover_constraints(
                    air.prover_component_list(),
                    component as int,
                )
                &&& final(evaluation_accumulator).columns() == columns_on_domain(
                    air.prover_component_list(),
                    component_traces@,
                    old(evaluation_accumulator).random_coeff(),
                    old(evaluation_accumulator).n_reserved(),
                    old(evaluation_accumulator).n_total(),
                    old(evaluation_accumulator).columns(),
                    interaction_elements@,
                    lookup_values@,
                    component as int,
                )
            },
        },
{
    let components: Vec<&dyn ComponentProver<B>> = air.prover_components();
    if components.len() != component_traces.len() {
        return Err(CompositionError::ComponentCount);
    }
    let ghost reserved = evaluation_accumulator.n_reserved();
    let ghost total = evaluation_accumulator.n_total();
    let n_left: usize = evaluation_accumulator.n_remaining();
    let max_log_size: u32 = evaluation_accumulator.log_size();
    let mut n_taken: usize = 0;
    let mut i: usize = 0;
    while i < components.len()
        invariant
            i <= components@.len(),
            components@ == air.prover_component_list(),
            component_traces@.len() == components@.len(),
            evaluation_accumulator.wf(),
            evaluation_accumulator.random_coeff() == old(evaluation_accumulator).random_coeff(),
            evaluation_accumulator.n_total() == total,
            total == old(evaluation_accumulator).n_total(),
            reserved == old(evaluation_accumulator).n_reserved(),
            evaluation_accumulator.max_log_size() == old(evaluation_accumulator).max_log_size(),
            max_log_size == old(evaluation_accumulator).max_log_size(),
            n_left == total - reserved,
            n_taken == prover_constraints(components@, i as int),
            n_taken <= n_left,
            evaluation_accumulator.n_reserved() == reserved + n_taken,
            evaluation_accumulator.columns() == columns_on_domain(
                components@,
                component_traces@,
                old(evaluation_accumulator).random_coeff(),
                reserved,
                total,
                old(evaluation_accumulator).columns(),
                interaction_elements@,
                lookup_values@,
                i as int,
            ),
            forall|k: int|
                0 <= k < i ==> prover_failure_at(
                    components@,
                    interaction_elements@,
                    reserved,
                    total,
                    max_log_size as nat,
                    k,
                ) is None,
        decreases components@.len() - i,
    {
        let ids = components[i].interaction_element_ids();
        proof {
            lemma_covers_ids(interaction_elements@, ids@);
        }
        if !interaction_elements.contains_all(&ids) {
            return Err(
                CompositionError::Component {
                    component: i,
                    kind: ComponentErrorKind::MissingInteractionElement,
                },
            );
        }
        let n_constraints: usize = components[i].n_constraints();
        if n_constraints > n_left - n_taken {
            return Err(
                CompositionError::Component {
                    component: i,
                    kind: ComponentErrorKind::TooManyConstraints,
                },
            );
        }
        if components[i].max_constraint_log_degree_bound() > max_log_size {
            return Err(
                CompositionError::Component { component: i, kind: ComponentErrorKind::DegreeBound },
            );
        }
        components[i].evaluate_constraint_quotients_on_domain(
            &component_traces[i],
            evaluation_accumulator,
            interaction_elements,
            lookup_values,
        );
        n_taken = n_taken + n_constraints;
        i = i + 1;
    }
    Ok(())
}

/// Two runs of the same AIR agree. They meet the same components in the
/// same order and read the same identifiers of interaction elements in the
/// same order; and if their transcripts are equal before an element for
/// each of these identifiers is drawn, the same elements are drawn and the
/// transcripts are equal afterwards.
pub proof fn lemma_runs_agree<A: Air, C: Channel>(
    air: &A,
    first_components: Seq<&dyn Component>,
    second_components: Seq<&dyn Component>,
    first_ids: Vec<String>,
    second_ids: Vec<String>,
    first_channel: C,
    second_channel: C,
    first_felts: Seq<SecureField>,
    second_felts: Seq<SecureField>,
    first_channel_after: C,
    second_channel_after: C,
)
    requires
        first_components == air.component_list(),
        second_components == air.component_list(),
        ids_of(first_ids@) == all_element_ids(first_components),
        ids_of(second_ids@) == all_element_ids(second_components),
        first_channel == second_channel,
        first_felts == first_channel.felts_drawn(first_ids.len()),
        second_felts == second_channel.felts_drawn(second_ids.len()),
        first_channel_after == first_channel.after_draw(first_ids.len()),
        second_channel_after == second_channel.after_draw(second_ids.len()),
    ensures
        first_components == second_components,
        ids_of(first_ids@) == ids_of(second_ids@),
        first_felts == second_felts,
        first_channel_after == second_channel_after,
{
    assert(ids_of(first_ids@).len() == first_ids@.len());
    assert(ids_of(second_ids@).len() == second_ids@.len());
    assert(first_ids.len() == second_ids.len());
}

/// Two runs give a component that keeps the lookup values as they are
/// provided the same ones: none.
pub proof fn lemma_provided_lookup_values_agree<B: Backend, P: ComponentProver<B>>(
    component: &P,
    trace: &ComponentTrace<'_, B>,
    first: Map<Seq<char>, Quartic>,
    second: Map<Seq<char>, Quartic>,
)
    requires
        component.lookup_values_of(trace) == Map::<Seq<char>, Quartic>::empty(),
        first == component.lookup_values_of(trace) || first == Map::<
            Seq<char>,
            Quartic,
        >::empty(),
        second == component.lookup_values_of(trace) || second == Map::<
            Seq<char>,
            Quartic,
        >::empty(),
    ensures
        first == second,
        first == Map::<Seq<char>, Quartic>::empty(),
{
}

} // verus!
