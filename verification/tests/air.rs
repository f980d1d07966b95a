use std::collections::BTreeMap;

use stwo_prover::air::accumulation::{DomainEvaluationAccumulator, PointEvaluationAccumulator};
use stwo_prover::air::air_ext::{
    composition_log_degree_bound, draw_interaction_elements,
    eval_composition_polynomial_at_point, evaluate_constraint_quotients_on_domain,
    interaction_element_ids, n_constraints, pair_interaction_elements, ComponentErrorKind,
    CompositionError,
};
use stwo_prover::air::{
    split_lookup_instances, verify_layer_claims, Air, AirProver, ColumnEvaluator, Component, ComponentProver,
    ComponentTrace, ConstantPolynomial, GkrClaimError, GkrClaimErrorKind, LookupConfig,
    LookupEvaluator, LookupInstanceConfig, LookupVariant, MultilinearPolynomial,
    TraceExprPolynomial,
};
use stwo_prover::backend::simd::qm31::PackedSecureField;
use stwo_prover::backend::SimdBackend;
use stwo_prover::channel::Channel;
use stwo_prover::circle::CirclePoint;
use stwo_prover::fields::m31::M31;
use stwo_prover::fields::qm31::{SecureField, QM31};
use stwo_prover::lookups::gkr_verifier::Gate;
use stwo_prover::pcs::{same_shape, TreeVec};
use stwo_prover::{ColumnVec, InteractionElements, LookupValues};

fn base(value: u32) -> SecureField {
    QM31::from_base(M31::from_u32_unchecked(value))
}

/// A component with one constraint for each value of the first column of
/// its mask: the quotient is that value times the interaction element
/// "z", if the component reads one.
struct TestComponent {
    n_constraints: usize,
    columns: Vec<usize>,
    ids: Vec<String>,
}

impl Component for TestComponent {
    fn n_constraints(&self) -> usize {
        self.n_constraints
    }

    fn max_constraint_log_degree_bound(&self) -> u32 {
        4 + self.n_constraints as u32
    }

    fn n_interaction_phases(&self) -> u32 {
        1
    }

    fn trace_log_degree_bounds(&self) -> TreeVec<ColumnVec<u32>> {
        TreeVec::new(self.columns.iter().map(|n| vec![4; *n]).collect())
    }

    fn mask_points(
        &self,
        point: CirclePoint<SecureField>,
    ) -> TreeVec<ColumnVec<Vec<CirclePoint<SecureField>>>> {
        TreeVec::new(self.columns.iter().map(|n| vec![vec![point]; *n]).collect())
    }

    fn interaction_element_ids(&self) -> Vec<String> {
        self.ids.clone()
    }

    fn evaluate_constraint_quotients_at_point(
        &self,
        _point: CirclePoint<SecureField>,
        mask: &ColumnVec<Vec<SecureField>>,
        evaluation_accumulator: &mut PointEvaluationAccumulator,
        interaction_elements: &InteractionElements,
        _lookup_values: &LookupValues,
    ) {
        let mut factor = QM31::one();
        for id in &self.ids {
            factor = factor.mul(interaction_elements.get(id).unwrap());
        }
        for i in 0..self.n_constraints {
            evaluation_accumulator.accumulate(mask[0][i].mul(factor));
        }
    }

    fn verify_succinct_multilinear_gkr_layer_claims(
        &self,
        _point: &[SecureField],
        _interaction_elements: &InteractionElements,
        gkr_claims_to_verify_by_instance: &[Vec<SecureField>],
    ) -> Result<(), GkrClaimError> {
        if gkr_claims_to_verify_by_instance.is_empty() {
            Ok(())
        } else {
            Err(GkrClaimError { kind: GkrClaimErrorKind::InstanceCount, instance: 0 })
        }
    }

    fn eval_at_point_iop_claims_by_n_variables(
        &self,
        _multilinear_eval_claims_by_instance: &[Vec<SecureField>],
    ) -> BTreeMap<u32, Vec<SecureField>> {
        BTreeMap::new()
    }

    fn gkr_lookup_instance_configs(&self) -> Vec<LookupInstanceConfig> {
        vec![]
    }
}

struct TestAir {
    components: Vec<TestComponent>,
}

impl Air for TestAir {
    fn components(&self) -> Vec<&dyn Component> {
        self.components.iter().map(|component| component as &dyn Component).collect()
    }
}

/// A transcript that gives the numbers 1, 2, 3, ... as its elements.
struct CountingChannel {
    drawn: u32,
}

impl Channel for CountingChannel {
    fn mix_felts(&mut self, _felts: &[SecureField]) {}

    fn draw_felts(&mut self, n_felts: usize) -> Vec<SecureField> {
        (0..n_felts)
            .map(|_| {
                self.drawn += 1;
                base(self.drawn)
            })
            .collect()
    }
}

fn point() -> CirclePoint<SecureField> {
    CirclePoint { x: QM31::one(), y: QM31::zero() }
}

fn two_component_air() -> TestAir {
    TestAir {
        components: vec![
            TestComponent { n_constraints: 2, columns: vec![1, 0], ids: vec![] },
            TestComponent { n_constraints: 1, columns: vec![1, 1], ids: vec!["z".to_string()] },
        ],
    }
}

fn elements(entries: &[(&str, u32)]) -> InteractionElements {
    InteractionElements::new(
        entries.iter().map(|(id, value)| (id.to_string(), base(*value))).collect(),
    )
    .unwrap()
}

#[test]
fn composition_polynomial_combines_the_components_in_their_order() {
    // The first component gives 1 and 2, the second 3 * z with z = 1:
    // with alpha = 2 this is 1 * 4 + 2 * 2 + 3 = 11.
    let air = two_component_air();
    let masks = vec![vec![vec![base(1), base(2)]], vec![vec![base(3)], vec![]]];
    let res = eval_composition_polynomial_at_point(
        &air,
        point(),
        &masks,
        base(2),
        &elements(&[("z", 1)]),
        &LookupValues::default(),
    );
    assert_eq!(res, Ok(base(11)));
    // With z = 5 the last quotient is 15.
    let res = eval_composition_polynomial_at_point(
        &air,
        point(),
        &masks,
        base(2),
        &elements(&[("z", 5), ("unused", 9)]),
        &LookupValues::default(),
    );
    assert_eq!(res, Ok(base(23)));
}

#[test]
fn composition_polynomial_reports_the_first_failing_component() {
    let air = two_component_air();
    let good = vec![vec![vec![base(1), base(2)]], vec![vec![base(3)], vec![]]];
    let z = elements(&[("z", 1)]);
    let none = InteractionElements::empty();
    let lookups = LookupValues::default();

    let res = eval_composition_polynomial_at_point(&air, point(), &good, base(2), &none, &lookups);
    assert_eq!(
        res,
        Err(CompositionError::Component {
            component: 1,
            kind: ComponentErrorKind::MissingInteractionElement
        })
    );

    let short = vec![vec![vec![base(1), base(2)]], vec![vec![base(3)]]];
    let res = eval_composition_polynomial_at_point(&air, point(), &short, base(2), &z, &lookups);
    assert_eq!(
        res,
        Err(CompositionError::Component { component: 1, kind: ComponentErrorKind::MaskShape })
    );

    // Both components fail: the first one is reported.
    let both = vec![vec![], vec![vec![base(3)]]];
    let res = eval_composition_polynomial_at_point(&air, point(), &both, base(2), &none, &lookups);
    assert_eq!(
        res,
        Err(CompositionError::Component { component: 0, kind: ComponentErrorKind::MaskShape })
    );

    let one = vec![vec![vec![base(1), base(2)]]];
    let res = eval_composition_polynomial_at_point(&air, point(), &one, base(2), &z, &lookups);
    assert_eq!(res, Err(CompositionError::ComponentCount));
}

#[test]
fn composition_polynomial_of_no_components_is_zero() {
    let air = TestAir { components: vec![] };
    let res = eval_composition_polynomial_at_point(
        &air,
        point(),
        &vec![],
        base(2),
        &InteractionElements::empty(),
        &LookupValues::default(),
    );
    assert_eq!(res, Ok(QM31::zero()));
}

#[test]
fn air_enumeration_is_stable() {
    let air = TestAir {
        components: vec![
            TestComponent { n_constraints: 1, columns: vec![1], ids: vec!["b".to_string()] },
            TestComponent { n_constraints: 2, columns: vec![2], ids: vec![] },
            TestComponent {
                n_constraints: 3,
                columns: vec![3],
                ids: vec!["a".to_string(), "c".to_string()],
            },
        ],
    };
    let order =
        |air: &TestAir| air.components().iter().map(|c| c.n_constraints()).collect::<Vec<_>>();
    assert_eq!(order(&air), vec![1, 2, 3]);
    assert_eq!(order(&air), order(&air));
    let ids = interaction_element_ids(&air);
    assert_eq!(ids, vec!["b".to_string(), "a".to_string(), "c".to_string()]);
    assert_eq!(interaction_element_ids(&air), ids);

    // The same transcript gives the same elements to the same identifiers.
    let first = draw_interaction_elements(&mut CountingChannel { drawn: 0 }, &ids).unwrap();
    let second = draw_interaction_elements(&mut CountingChannel { drawn: 0 }, &ids).unwrap();
    for id in &ids {
        assert_eq!(first.get(id), second.get(id));
    }
    assert_eq!(first.get(&"b".to_string()), Some(base(1)));
    assert_eq!(first.get(&"a".to_string()), Some(base(2)));
    assert_eq!(first.get(&"c".to_string()), Some(base(3)));
    assert_eq!(first.len(), 3);
    assert!(first.contains_all(&ids));
}

#[test]
fn drawn_elements_need_distinct_identifiers() {
    let ids = vec!["a".to_string(), "b".to_string(), "a".to_string()];
    assert!(draw_interaction_elements(&mut CountingChannel { drawn: 0 }, &ids).is_none());
    let empty = draw_interaction_elements(&mut CountingChannel { drawn: 0 }, &vec![]).unwrap();
    assert_eq!(empty.len(), 0);
}

#[test]
fn mask_points_have_the_shape_of_the_trace() {
    for columns in [vec![], vec![0], vec![3], vec![2, 0, 5]] {
        let component = TestComponent { n_constraints: 0, columns, ids: vec![] };
        assert!(same_shape(&component.mask_points(point()), &component.trace_log_degree_bounds()));
    }
    let two_trees: TreeVec<ColumnVec<u32>> = TreeVec::new(vec![vec![1, 2], vec![3]]);
    let same: TreeVec<ColumnVec<bool>> = TreeVec::new(vec![vec![true, false], vec![true]]);
    let other: TreeVec<ColumnVec<bool>> = TreeVec::new(vec![vec![true], vec![true, false]]);
    let longer: TreeVec<ColumnVec<bool>> = TreeVec::new(vec![vec![true, false], vec![true], vec![]]);
    assert!(same_shape(&two_trees, &same));
    assert!(!same_shape(&two_trees, &other));
    assert!(!same_shape(&two_trees, &longer));
    assert_eq!(two_trees.len(), 2);
}

#[test]
fn interaction_elements_are_found_by_identifier() {
    let found = elements(&[("alpha", 3), ("z", 7)]);
    assert_eq!(found.get(&"alpha".to_string()), Some(base(3)));
    assert_eq!(found.get(&"z".to_string()), Some(base(7)));
    assert_eq!(found.get(&"beta".to_string()), None);
    assert_eq!(found.len(), 2);
    assert!(found.contains_all(&vec!["z".to_string(), "alpha".to_string()]));
    assert!(found.contains_all(&vec![]));
    assert!(!found.contains_all(&vec!["z".to_string(), "beta".to_string()]));
    assert!(InteractionElements::new(vec![("z".to_string(), base(1)), ("z".to_string(), base(2))])
        .is_none());
    assert_eq!(InteractionElements::empty().len(), 0);
}

#[test]
fn lookup_values_are_found_by_identifier() {
    let values =
        LookupValues::new(vec![("sum".to_string(), base(3)), ("product".to_string(), base(7))])
            .unwrap();
    assert_eq!(values.get(&"sum".to_string()), Some(base(3)));
    assert_eq!(values.get(&"product".to_string()), Some(base(7)));
    assert_eq!(values.get(&"other".to_string()), None);
    assert_eq!(values.len(), 2);
    assert_eq!(LookupValues::default().len(), 0);
    assert!(LookupValues::new(vec![("a".to_string(), base(1)), ("a".to_string(), base(1))])
        .is_none());
}

#[test]
fn constant_multilinear_polynomial() {
    let elements = InteractionElements::empty();
    let value = QM31::from_u32_unchecked(5, 6, 7, 8);
    let polynomial = ConstantPolynomial::new(value);
    for n_variables in 0..=8 {
        let point: Vec<SecureField> = (0..n_variables).map(base).collect();
        assert_eq!(polynomial.eval(&elements, &point), value);
        assert_eq!(ConstantPolynomial::one().eval(&elements, &point), QM31::one());
    }
}

/// The expression that sums the first values of all columns.
struct FirstValues;

impl TraceExprPolynomial for FirstValues {
    fn eval(
        &self,
        _interaction_elements: &InteractionElements,
        mask: &ColumnVec<Vec<SecureField>>,
    ) -> SecureField {
        mask.iter().fold(QM31::zero(), |sum, column| sum.add(column[0]))
    }
}

#[test]
fn column_evaluators_answer_by_their_kind() {
    let elements = InteractionElements::empty();
    let multilinear = ColumnEvaluator::Multilinear(Box::new(ConstantPolynomial::new(base(4))));
    let univariate = ColumnEvaluator::Univariate(Box::new(FirstValues));
    let point = vec![base(1), base(2)];
    let mask = vec![vec![base(10)], vec![base(20), base(30)]];
    assert_eq!(multilinear.eval_multilinear(&elements, &point), Some(base(4)));
    assert_eq!(multilinear.eval_univariate(&elements, &mask), None);
    assert_eq!(univariate.eval_multilinear(&elements, &point), None);
    assert_eq!(univariate.eval_univariate(&elements, &mask), Some(base(30)));
}

#[test]
fn lookup_config_tells_gate_and_side() {
    let constant = || ColumnEvaluator::Multilinear(Box::new(ConstantPolynomial::one()));
    let table = LookupConfig::new(
        LookupVariant::Table,
        LookupEvaluator::LogUp { numerator: constant(), denominator: constant() },
    );
    assert!(matches!(table.variant, LookupVariant::Table));
    assert!(matches!(table.evaluator, LookupEvaluator::LogUp { .. }));
    let config = table.instance_config();
    assert_eq!(config.variant, Gate::LogUp);
    assert!(config.is_lookup_table);
    let reference =
        LookupConfig::new(LookupVariant::Reference, LookupEvaluator::GrandProduct(constant()));
    let config = reference.instance_config();
    assert_eq!(config.variant, Gate::GrandProduct);
    assert!(!config.is_lookup_table);
}

#[test]
fn lookup_instances_are_split_by_side() {
    let config = |is_lookup_table| LookupInstanceConfig { variant: Gate::LogUp, is_lookup_table };
    let configs = vec![config(false), config(true), config(false), config(false), config(true)];
    assert_eq!(split_lookup_instances(&configs), (vec![1, 4], vec![0, 2, 3]));
    assert_eq!(split_lookup_instances(&vec![]), (vec![], vec![]));
    assert_eq!(split_lookup_instances(&vec![config(true)]), (vec![0], vec![]));
}

impl ComponentProver<SimdBackend> for TestComponent {
    /// Adds, for constraint `j`, the value `j + 1`, times one more than
    /// the number of trees of the trace, to every row of a domain of 32
    /// points.
    fn evaluate_constraint_quotients_on_domain(
        &self,
        trace: &ComponentTrace<'_, SimdBackend>,
        evaluation_accumulator: &mut DomainEvaluationAccumulator,
        _interaction_elements: &InteractionElements,
        _lookup_values: &LookupValues,
    ) {
        let factor = 1 + trace.polys.len() as u32;
        let reservation = evaluation_accumulator.reserve(self.n_constraints, 5);
        for j in 0..self.n_constraints {
            for word in 0..2 {
                reservation.accumulate_at(
                    evaluation_accumulator,
                    j,
                    word,
                    PackedSecureField::broadcast(base(factor * (j as u32 + 1))),
                );
            }
        }
    }
}

impl AirProver<SimdBackend> for TestAir {
    fn prover_components(&self) -> Vec<&dyn ComponentProver<SimdBackend>> {
        self.components
            .iter()
            .map(|component| component as &dyn ComponentProver<SimdBackend>)
            .collect()
    }
}

fn empty_trace<'a>() -> ComponentTrace<'a, SimdBackend> {
    ComponentTrace::new(TreeVec::new(vec![]), TreeVec::new(vec![]))
}

#[test]
fn domain_quotients_take_the_powers_of_the_point_quotients() {
    // The components give the values 1, 2 and 1 to every row: with
    // alpha = 2 each row holds 1 * 4 + 2 * 2 + 1 = 9.
    let air = two_component_air();
    let traces = vec![empty_trace(), empty_trace()];
    let mut accumulator = DomainEvaluationAccumulator::new(base(2), 6, 3);
    let res = evaluate_constraint_quotients_on_domain(
        &air,
        &traces,
        &mut accumulator,
        &elements(&[("z", 1)]),
        &LookupValues::default(),
    );
    assert_eq!(res, Ok(()));
    assert_eq!(accumulator.n_remaining(), 0);
    let columns = accumulator.finalize();
    assert_eq!(columns[5].len(), 2);
    assert_eq!(columns[5][0].to_array(), [base(9); 16]);
    assert_eq!(columns[5][1].to_array(), [base(9); 16]);
}

#[test]
fn domain_quotients_report_the_first_failing_component() {
    let air = two_component_air();
    let traces = vec![empty_trace(), empty_trace()];
    let z = elements(&[("z", 1)]);
    let lookups = LookupValues::default();

    let mut accumulator = DomainEvaluationAccumulator::new(base(2), 6, 3);
    let res = evaluate_constraint_quotients_on_domain(
        &air,
        &traces,
        &mut accumulator,
        &InteractionElements::empty(),
        &lookups,
    );
    assert_eq!(
        res,
        Err(CompositionError::Component {
            component: 1,
            kind: ComponentErrorKind::MissingInteractionElement
        })
    );
    // The first component has added its two quotients.
    assert_eq!(accumulator.n_remaining(), 1);

    let mut accumulator = DomainEvaluationAccumulator::new(base(2), 6, 2);
    let res =
        evaluate_constraint_quotients_on_domain(&air, &traces, &mut accumulator, &z, &lookups);
    assert_eq!(
        res,
        Err(CompositionError::Component {
            component: 1,
            kind: ComponentErrorKind::TooManyConstraints
        })
    );

    let mut accumulator = DomainEvaluationAccumulator::new(base(2), 5, 3);
    let res =
        evaluate_constraint_quotients_on_domain(&air, &traces, &mut accumulator, &z, &lookups);
    assert_eq!(
        res,
        Err(CompositionError::Component { component: 0, kind: ComponentErrorKind::DegreeBound })
    );
    assert_eq!(accumulator.n_remaining(), 3);

    let mut accumulator = DomainEvaluationAccumulator::new(base(2), 6, 3);
    let one = vec![empty_trace()];
    let res = evaluate_constraint_quotients_on_domain(&air, &one, &mut accumulator, &z, &lookups);
    assert_eq!(res, Err(CompositionError::ComponentCount));
    assert_eq!(accumulator.n_remaining(), 3);
}

#[test]
fn degree_bound_and_constraint_count_of_an_air() {
    let air = two_component_air();
    assert_eq!(composition_log_degree_bound(&air), Some(6));
    assert_eq!(n_constraints(&air), Some(3));
    let empty = TestAir { components: vec![] };
    assert_eq!(composition_log_degree_bound(&empty), None);
    assert_eq!(n_constraints(&empty), Some(0));
    let huge = TestAir {
        components: vec![
            TestComponent { n_constraints: usize::MAX, columns: vec![], ids: vec![] },
            TestComponent { n_constraints: 1, columns: vec![], ids: vec![] },
        ],
    };
    assert_eq!(n_constraints(&huge), None);
}

#[test]
fn elements_are_paired_with_identifiers_in_order() {
    let ids = vec!["x".to_string(), "y".to_string()];
    let paired = pair_interaction_elements(&ids, &vec![base(10), base(20)]).unwrap();
    assert_eq!(paired.get(&ids[0]), Some(base(10)));
    assert_eq!(paired.get(&ids[1]), Some(base(20)));
    assert_eq!(paired.len(), 2);
    let twice = vec!["x".to_string(), "x".to_string()];
    assert!(pair_interaction_elements(&twice, &vec![base(10), base(20)]).is_none());
    assert!(pair_interaction_elements(&ids, &vec![base(10)]).is_none());
    assert!(pair_interaction_elements(&ids, &vec![base(10), base(20), base(30)]).is_none());
}

#[test]
fn layer_claims_are_checked_against_the_lookups() {
    let constant =
        |value| ColumnEvaluator::Multilinear(Box::new(ConstantPolynomial::new(base(value))));
    let lookups = vec![
        LookupConfig::new(LookupVariant::Table, LookupEvaluator::GrandProduct(constant(3))),
        LookupConfig::new(
            LookupVariant::Reference,
            LookupEvaluator::LogUp { numerator: constant(1), denominator: constant(7) },
        ),
    ];
    let elements = InteractionElements::empty();
    let point = vec![base(5), base(6)];
    let check = |claims: &[Vec<SecureField>]| verify_layer_claims(&lookups, &point, &elements, claims);
    let error = |kind, instance| Err(GkrClaimError { kind, instance });

    assert_eq!(check(&[vec![base(3)], vec![base(1), base(7)]]), Ok(()));
    assert_eq!(
        check(&[vec![base(3)], vec![base(1), base(8)]]),
        error(GkrClaimErrorKind::ClaimMismatch, 1)
    );
    assert_eq!(
        check(&[vec![base(4)], vec![base(1), base(8)]]),
        error(GkrClaimErrorKind::ClaimMismatch, 0)
    );
    assert_eq!(
        check(&[vec![base(3)], vec![base(2), base(7)]]),
        error(GkrClaimErrorKind::ClaimMismatch, 1)
    );
    assert_eq!(
        check(&[vec![base(3), base(3)], vec![base(1), base(7)]]),
        error(GkrClaimErrorKind::ClaimCount, 0)
    );
    assert_eq!(
        check(&[vec![base(3)], vec![base(1)]]),
        error(GkrClaimErrorKind::ClaimCount, 1)
    );
    assert_eq!(check(&[vec![base(3)]]), error(GkrClaimErrorKind::InstanceCount, 1));
    assert_eq!(
        check(&[vec![base(3)], vec![base(1), base(7)], vec![]]),
        error(GkrClaimErrorKind::InstanceCount, 2)
    );
    assert_eq!(verify_layer_claims(&vec![], &point, &elements, &[]), Ok(()));

    let by_trace = vec![LookupConfig::new(
        LookupVariant::Table,
        LookupEvaluator::LogUp {
            numerator: constant(1),
            denominator: ColumnEvaluator::Univariate(Box::new(FirstValues)),
        },
    )];
    assert_eq!(
        verify_layer_claims(&by_trace, &point, &elements, &[vec![base(1), base(1)]]),
        error(GkrClaimErrorKind::NotMultilinear, 0)
    );
}

#[test]
fn composition_polynomial_counts_its_constraints() {
    let air = TestAir {
        components: vec![
            TestComponent { n_constraints: 1, columns: vec![1], ids: vec![] },
            TestComponent { n_constraints: usize::MAX, columns: vec![1], ids: vec![] },
        ],
    };
    let masks = vec![vec![vec![base(1)]], vec![vec![base(2)]]];
    let res = eval_composition_polynomial_at_point(
        &air,
        point(),
        &masks,
        base(2),
        &InteractionElements::empty(),
        &LookupValues::default(),
    );
    assert_eq!(
        res,
        Err(CompositionError::Component {
            component: 1,
            kind: ComponentErrorKind::TooManyConstraints
        })
    );
}

#[test]
fn component_trace_knows_whether_its_forms_match() {
    let trace = empty_trace();
    assert!(trace.has_matching_shapes());
    assert_eq!(trace.polys.len(), 0);
    assert_eq!(trace.evals.len(), 0);
    let uneven: ComponentTrace<'_, SimdBackend> =
        ComponentTrace::new(TreeVec::new(vec![vec![]]), TreeVec::new(vec![]));
    assert!(!uneven.has_matching_shapes());
}

#[test]
fn a_component_without_lookup_values_gives_none() {
    let component = TestComponent { n_constraints: 1, columns: vec![1], ids: vec![] };
    let values = ComponentProver::<SimdBackend>::lookup_values(&component, &empty_trace());
    assert_eq!(values.len(), 0);
    assert_eq!(values.get(&"sum".to_string()), None);
}

#[test]
fn drawn_elements_are_those_of_one_draw() {
    // The transcript is asked once, for as many elements as identifiers,
    // and moves on by that many.
    let ids = vec!["a".to_string(), "b".to_string(), "c".to_string()];
    let mut channel = CountingChannel { drawn: 10 };
    let first = draw_interaction_elements(&mut channel, &ids).unwrap();
    assert_eq!(channel.drawn, 13);
    assert_eq!(first.get(&ids[0]), Some(base(11)));
    assert_eq!(first.get(&ids[1]), Some(base(12)));
    assert_eq!(first.get(&ids[2]), Some(base(13)));
    // A failed pairing has drawn all the same.
    let twice = vec!["a".to_string(), "a".to_string()];
    assert!(draw_interaction_elements(&mut channel, &twice).is_none());
    assert_eq!(channel.drawn, 15);
}

#[test]
fn each_component_is_handed_its_own_trace() {
    // The first component meets a trace without trees and gives 1 and 2,
    // the second meets one with two trees and gives 3: with alpha = 2 each
    // row holds 1 * 4 + 2 * 2 + 3 = 11.
    let air = two_component_air();
    let two_trees =
        ComponentTrace::new(TreeVec::new(vec![vec![], vec![]]), TreeVec::new(vec![vec![], vec![]]));
    let traces = vec![empty_trace(), two_trees];
    let mut accumulator = DomainEvaluationAccumulator::new(base(2), 6, 3);
    let res = evaluate_constraint_quotients_on_domain(
        &air,
        &traces,
        &mut accumulator,
        &elements(&[("z", 1)]),
        &LookupValues::default(),
    );
    assert_eq!(res, Ok(()));
    let columns = accumulator.finalize();
    assert_eq!(columns[5][0].to_array(), [base(11); 16]);
    assert_eq!(columns[5][1].to_array(), [base(11); 16]);
}
