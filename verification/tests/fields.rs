use stwo_prover::fields::cm31::CM31;
use stwo_prover::fields::m31::{M31, P};
use stwo_prover::fields::qm31::QM31;

fn m(value: u32) -> M31 {
    M31::from_u32_unchecked(value)
}

fn q(a: u32, b: u32, c: u32, d: u32) -> QM31 {
    QM31::from_u32_unchecked(a, b, c, d)
}

#[test]
fn m31_arithmetic_is_modular() {
    assert_eq!(m(P - 1).add(m(1)), m(0));
    assert_eq!(m(P - 1).add(m(P - 1)), m(P - 2));
    assert_eq!(m(5).sub(m(7)), m(P - 2));
    assert_eq!(m(7).sub(m(5)), m(2));
    assert_eq!(m(0).neg(), m(0));
    assert_eq!(m(1).neg(), m(P - 1));
    assert_eq!(m(P - 1).mul(m(P - 1)), m(1));
    assert_eq!(m(1 << 16).mul(m(1 << 16)), m(2));
    assert_eq!(m(12345).mul(m(67890)), m(838102050));
}

#[test]
fn m31_reduce_takes_the_residue() {
    assert_eq!(M31::reduce(0), m(0));
    assert_eq!(M31::reduce(P as u64), m(0));
    assert_eq!(M31::reduce(P as u64 + 5), m(5));
    assert_eq!(M31::reduce(u64::MAX), m((u64::MAX % P as u64) as u32));
    assert_eq!(M31::reduce(2 * P as u64 - 1).value(), P - 1);
    assert_eq!(M31::zero().value(), 0);
    assert_eq!(M31::one().value(), 1);
}

#[test]
fn cm31_multiplies_with_i_squared_minus_one() {
    let i = CM31::from_u32_unchecked(0, 1);
    assert_eq!(i.mul(i), CM31::from_u32_unchecked(P - 1, 0));
    // (1 + 2i)(4 + 5i) = (4 - 10) + (5 + 8)i.
    let x = CM31::from_u32_unchecked(1, 2);
    let y = CM31::from_u32_unchecked(4, 5);
    assert_eq!(x.mul(y), CM31::from_u32_unchecked(P - 6, 13));
    assert_eq!(x.add(y), CM31::from_u32_unchecked(5, 7));
    assert_eq!(x.mul(CM31::one()), x);
    assert_eq!(x.add(CM31::zero()), x);
    assert_eq!(CM31::from_m31(m(1), m(2)), x);
}

#[test]
fn qm31_multiplies_with_u_squared_two_plus_i() {
    let u = q(0, 0, 1, 0);
    assert_eq!(u.mul(u), q(2, 1, 0, 0));
    // (1 + 2i + (3 + 4i)u)(4 + 5i + (6 + 7i)u)
    //   = (1 + 2i)(4 + 5i) + (2 + i)(3 + 4i)(6 + 7i)
    //     + ((1 + 2i)(6 + 7i) + (3 + 4i)(4 + 5i))u
    //   = (-6 + 13i) + (2 + i)(-10 + 45i) + ((-8 + 19i) + (-8 + 31i))u
    //   = (-6 + 13i) + (-65 + 80i) + (-16 + 50i)u.
    let x = q(1, 2, 3, 4);
    let y = q(4, 5, 6, 7);
    assert_eq!(x.mul(y), q(P - 71, 93, P - 16, 50));
    assert_eq!(y.mul(x), q(P - 71, 93, P - 16, 50));
    assert_eq!(x.add(y), q(5, 7, 9, 11));
    assert_eq!(x.mul(QM31::one()), x);
    assert_eq!(x.mul(QM31::zero()), QM31::zero());
    assert_eq!(x.add(QM31::zero()), x);
}

#[test]
fn qm31_multiplication_is_associative_and_distributive() {
    let x = q(1234567, 7654321, 1111111, P - 3);
    let y = q(P - 1, 5, 99999, 313);
    let z = q(42, P - 42, 2_000_000_000, 17);
    assert_eq!(x.mul(y).mul(z), x.mul(y.mul(z)));
    assert_eq!(x.mul(y).mul(z), x.mul(z).mul(y));
    assert_eq!(x.add(y).mul(z), x.mul(z).add(y.mul(z)));
    assert_eq!(x.add(y).add(z), x.add(y.add(z)));
}

#[test]
fn qm31_holds_the_base_field() {
    assert_eq!(QM31::from_base(m(7)), q(7, 0, 0, 0));
    assert_eq!(QM31::from_base(m(7)).mul(QM31::from_base(m(6))), q(42, 0, 0, 0));
    assert_eq!(QM31::from_m31(m(1), m(2), m(3), m(4)), q(1, 2, 3, 4));
    assert_eq!(q(1, 2, 3, 4).to_m31_array(), [m(1), m(2), m(3), m(4)]);
}
