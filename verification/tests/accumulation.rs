use stwo_prover::air::accumulation::{DomainEvaluationAccumulator, PointEvaluationAccumulator};
use stwo_prover::backend::simd::qm31::PackedSecureField;
use stwo_prover::fields::m31::{M31, P};
use stwo_prover::fields::qm31::{SecureField, QM31};

fn base(value: u32) -> SecureField {
    QM31::from_base(M31::from_u32_unchecked(value))
}

fn pow(x: SecureField, n: usize) -> SecureField {
    let mut res = QM31::one();
    for _ in 0..n {
        res = res.mul(x);
    }
    res
}

#[test]
fn point_accumulator_of_three_values() {
    // alpha = 2 and the values 1, 2, 3: 1 * 4 + 2 * 2 + 3 = 11.
    let mut accumulator = PointEvaluationAccumulator::new(base(2));
    accumulator.accumulate(base(1));
    accumulator.accumulate(base(2));
    accumulator.accumulate(base(3));
    assert_eq!(accumulator.n_accumulated(), 3);
    assert_eq!(accumulator.finalize(), base(11));
}

#[test]
fn point_accumulator_without_values_is_zero() {
    let accumulator = PointEvaluationAccumulator::new(base(5));
    assert_eq!(accumulator.n_accumulated(), 0);
    assert_eq!(accumulator.finalize(), QM31::zero());
}

#[test]
fn point_accumulator_gives_the_first_value_the_highest_power() {
    let alpha = QM31::from_u32_unchecked(2, 3, 5, 7);
    let values = [
        QM31::from_u32_unchecked(1, 2, 3, 4),
        QM31::from_u32_unchecked(P - 1, 0, 17, 4),
        QM31::from_u32_unchecked(0, 0, 0, 1),
        QM31::from_u32_unchecked(123456, 654321, 0, P - 2),
    ];
    let mut accumulator = PointEvaluationAccumulator::new(alpha);
    let mut expected = QM31::zero();
    for (i, value) in values.iter().enumerate() {
        accumulator.accumulate(*value);
        expected = expected.add(pow(alpha, values.len() - 1 - i).mul(*value));
    }
    assert_eq!(accumulator.finalize(), expected);
}

#[test]
fn domain_accumulator_matches_the_point_accumulator() {
    // Three contributions in two reservations over a domain of 32 points;
    // each row must hold what the point accumulator gives for its values.
    const LOG_SIZE: u32 = 5;
    let alpha = QM31::from_u32_unchecked(2, 3, 5, 7);
    let value = |contribution: usize, row: usize| {
        QM31::from_u32_unchecked(contribution as u32 + 1, row as u32, 3, (row * row) as u32)
    };
    let mut accumulator = DomainEvaluationAccumulator::new(alpha, LOG_SIZE, 3);
    let first = accumulator.reserve(2, LOG_SIZE);
    let second = accumulator.reserve(1, LOG_SIZE);
    for word in 0..2 {
        for (handle, contribution, global) in [(&first, 0, 0), (&first, 1, 1), (&second, 0, 2)] {
            let mut lanes = [QM31::zero(); 16];
            for (lane, slot) in lanes.iter_mut().enumerate() {
                *slot = value(global, 16 * word + lane);
            }
            handle.accumulate_at(
                &mut accumulator,
                contribution,
                word,
                PackedSecureField::from_array(lanes),
            );
        }
    }
    assert_eq!(first.power(0), alpha.mul(alpha));
    assert_eq!(first.power(1), alpha);
    assert_eq!(second.power(0), QM31::one());
    let columns = accumulator.finalize();
    assert_eq!(columns.len(), LOG_SIZE as usize + 1);
    for (log_size, column) in columns.iter().enumerate() {
        assert_eq!(column.len(), if log_size == LOG_SIZE as usize { 2 } else { 0 });
    }
    for row in 0..32 {
        let mut point = PointEvaluationAccumulator::new(alpha);
        for contribution in 0..3 {
            point.accumulate(value(contribution, row));
        }
        assert_eq!(columns[LOG_SIZE as usize][row / 16].to_array()[row % 16], point.finalize());
    }
}

#[test]
fn domain_accumulator_keeps_a_column_for_each_size() {
    let alpha = base(3);
    let mut accumulator = DomainEvaluationAccumulator::new(alpha, 6, 2);
    assert_eq!(accumulator.log_size(), 6);
    let small = accumulator.reserve(1, 4);
    let large = accumulator.reserve(1, 6);
    small.accumulate_at(&mut accumulator, 0, 0, PackedSecureField::broadcast(base(5)));
    large.accumulate_at(&mut accumulator, 0, 3, PackedSecureField::broadcast(base(7)));
    large.accumulate_at(&mut accumulator, 0, 3, PackedSecureField::broadcast(base(1)));
    let columns = accumulator.finalize();
    assert_eq!(columns[4].len(), 1);
    assert_eq!(columns[5].len(), 0);
    assert_eq!(columns[6].len(), 4);
    // The first of two contributions takes alpha^1, the second alpha^0.
    assert_eq!(columns[4][0].to_array(), [base(15); 16]);
    assert_eq!(columns[6][3].to_array(), [base(8); 16]);
    assert_eq!(columns[6][0].to_array(), [QM31::zero(); 16]);
}

#[test]
fn packed_secure_words_work_lane_by_lane() {
    let mut lanes = [QM31::zero(); 16];
    for (lane, slot) in lanes.iter_mut().enumerate() {
        *slot = QM31::from_u32_unchecked(lane as u32, 1, 0, 0);
    }
    let word = PackedSecureField::from_array(lanes);
    let doubled = word.add(word).to_array();
    let squared = word.mul(word).to_array();
    for lane in 0..16 {
        assert_eq!(doubled[lane], lanes[lane].add(lanes[lane]));
        assert_eq!(squared[lane], lanes[lane].mul(lanes[lane]));
    }
    assert_eq!(PackedSecureField::zero().to_array(), [QM31::zero(); 16]);
    assert_eq!(PackedSecureField::broadcast(base(9)).to_array(), [base(9); 16]);
}

#[test]
fn domain_smaller_than_a_word_takes_one_word() {
    let alpha = base(3);
    let mut accumulator = DomainEvaluationAccumulator::new(alpha, 4, 2);
    let tiny = accumulator.reserve(2, 0);
    let _small = accumulator.reserve(0, 3);
    tiny.accumulate_at(&mut accumulator, 0, 0, PackedSecureField::broadcast(base(1)));
    tiny.accumulate_at(&mut accumulator, 1, 0, PackedSecureField::broadcast(base(2)));
    let columns = accumulator.finalize();
    assert_eq!(columns[0].len(), 1);
    assert_eq!(columns[1].len(), 0);
    assert_eq!(columns[3].len(), 1);
    assert_eq!(columns[4].len(), 0);
    // 1 * alpha + 2 = 5.
    assert_eq!(columns[0][0].to_array(), [base(5); 16]);
    assert_eq!(columns[3][0].to_array(), [QM31::zero(); 16]);
}
