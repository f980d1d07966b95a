use stwo_prover::math::{
    log2_ceil, log2_floor, next_pow_two, prev_pow_two, usize_div_ceil, usize_safe_div,
};

#[test]
fn log2_ceil_test() {
    assert_eq!(log2_ceil(1), 0);
    assert_eq!(log2_ceil(63), 6);
    assert_eq!(log2_ceil(64), 6);
    assert_eq!(log2_ceil(65), 7);
}

#[test]
fn log2_floor_test() {
    assert_eq!(log2_floor(1), 0);
    assert_eq!(log2_floor(63), 5);
    assert_eq!(log2_floor(64), 6);
    assert_eq!(log2_floor(65), 6);
}

#[test]
fn next_power_of_two_test() {
    assert_eq!(next_pow_two(1), 1);
    assert_eq!(next_pow_two(2), 2);
    assert_eq!(next_pow_two(3), 4);
}

#[test]
fn prev_power_of_two_test() {
    assert_eq!(prev_pow_two(1), 1);
    assert_eq!(prev_pow_two(2), 2);
    assert_eq!(prev_pow_two(3), 2);
}

#[test]
fn div_ceil_test() {
    assert_eq!(usize_div_ceil(6, 4), 2);
    assert_eq!(usize_div_ceil(6, 3), 2);
}

#[test]
fn div_ceil_rounds_up_only_on_a_remainder() {
    assert_eq!(usize_div_ceil(0, 5), 0);
    assert_eq!(usize_div_ceil(1, 5), 1);
    assert_eq!(usize_div_ceil(5, 5), 1);
    assert_eq!(usize_div_ceil(6, 5), 2);
    assert_eq!(usize_div_ceil(usize::MAX, 1), usize::MAX);
    assert_eq!(usize_div_ceil(usize::MAX, 2), usize::MAX / 2 + 1);
}

#[test]
fn safe_div_gives_the_exact_quotient() {
    assert_eq!(usize_safe_div(12, 4), 3);
    assert_eq!(usize_safe_div(0, 7), 0);
    assert_eq!(usize_safe_div(49, 7), 7);
}

#[test]
fn logarithms_of_large_numbers() {
    assert_eq!(log2_floor(usize::MAX), usize::BITS as usize - 1);
    assert_eq!(log2_ceil(usize::MAX), usize::BITS as usize);
    assert_eq!(log2_floor(1 << 40), 40);
    assert_eq!(log2_ceil((1 << 40) + 1), 41);
    assert_eq!(next_pow_two(1 << 40), 1 << 40);
    assert_eq!(next_pow_two((1 << 40) + 1), 1 << 41);
    assert_eq!(prev_pow_two((1 << 41) - 1), 1 << 40);
}
