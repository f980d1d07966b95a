//! The secure field: the quadratic extension of [`CM31`] by a root `u` of
//! `x^2 - (2 + i)`, of degree four over the base field.

use crate::fields::cm31::{
    complex_product, complex_reduce, complex_sum, lemma_complex_product_associates,
    lemma_complex_product_congruent, lemma_complex_product_distributes,
    lemma_complex_product_exchange, lemma_complex_reduce_congruent, lemma_complex_sum_congruent,
    Complex, CM31,
};
use crate::fields::m31::{M31, P};
use vstd::prelude::*;

verus! {

/// A number `lo + hi·u` with parts in the integers extended by `i`, where
/// `u^2 = 2 + i`.
pub struct Quartic {
    pub lo: Complex,
    pub hi: Complex,
}

/// The square of `u`, which is `2 + i`.
pub open spec fn u_squared() -> Complex {
    Complex { re: 2, im: 1 }
}

/// The number with all four parts brought to their residues.
pub open spec fn quartic_reduce(x: Quartic) -> Quartic {
    Quartic { lo: complex_reduce(x.lo), hi: complex_reduce(x.hi) }
}

/// The sum over the integers.
pub open spec fn quartic_sum(x: Quartic, y: Quartic) -> Quartic {
    Quartic { lo: complex_sum(x.lo, y.lo), hi: complex_sum(x.hi, y.hi) }
}

/// The product over the integers, with `u^2 = 2 + i`:
/// `(a + bu)(c + du) = (ac + (2 + i)bd) + (ad + bc)u`.
pub open spec fn quartic_product(x: Quartic, y: Quartic) -> Quartic {
    Quartic {
        lo: complex_sum(
            complex_product(x.lo, y.lo),
            complex_product(u_squared(), complex_product(x.hi, y.hi)),
        ),
        hi: complex_sum(complex_product(x.lo, y.hi), complex_product(x.hi, y.lo)),
    }
}

/// The number zero.
pub open spec fn quartic_zero() -> Quartic {
    Quartic { lo: Complex { re: 0, im: 0 }, hi: Complex { re: 0, im: 0 } }
}

/// The number one.
pub open spec fn quartic_one() -> Quartic {
    Quartic { lo: Complex { re: 1, im: 0 }, hi: Complex { re: 0, im: 0 } }
}

/// The element of the secure field that a base-field residue stands for.
pub open spec fn quartic_from_base(x: int) -> Quartic {
    Quartic { lo: Complex { re: x, im: 0 }, hi: Complex { re: 0, im: 0 } }
}

/// The sum in the secure field.
pub open spec fn qm31_add(x: Quartic, y: Quartic) -> Quartic {
    quartic_reduce(quartic_sum(x, y))
}

/// The product in the secure field.
pub open spec fn qm31_mul(x: Quartic, y: Quartic) -> Quartic {
    quartic_reduce(quartic_product(x, y))
}

/// The power `x^n` in the secure field.
pub open spec fn qm31_pow(x: Quartic, n: nat) -> Quartic
    decreases n,
{
    if n == 0 {
        quartic_one()
    } else {
        qm31_mul(qm31_pow(x, (n - 1) as nat), x)
    }
}

/// Two numbers that stand for the same element of the secure field.
pub open spec fn quartic_congruent(x: Quartic, y: Quartic) -> bool {
    quartic_reduce(x) == quartic_reduce(y)
}

/// A reduced number stands for the element that it was reduced from.
pub proof fn lemma_quartic_reduce_congruent(x: Quartic)
    ensures
        quartic_congruent(quartic_reduce(x), x),
{
    lemma_complex_reduce_congruent(x.lo);
    lemma_complex_reduce_congruent(x.hi);
}

/// Sums of congruent numbers are congruent.
pub proof fn lemma_quartic_sum_congruent(x: Quartic, x2: Quartic, y: Quartic, y2: Quartic)
    requires
        quartic_congruent(x, x2),
        quartic_congruent(y, y2),
    ensures
        quartic_congruent(quartic_sum(x, y), quartic_sum(x2, y2)),
{
    lemma_complex_sum_congruent(x.lo, x2.lo, y.lo, y2.lo);
    lemma_complex_sum_congruent(x.hi, x2.hi, y.hi, y2.hi);
}

/// Products of congruent numbers are congruent.
pub proof fn lemma_quartic_product_congruent(x: Quartic, x2: Quartic, y: Quartic, y2: Quartic)
    requires
        quartic_congruent(x, x2),
        quartic_congruent(y, y2),
    ensures
        quartic_congruent(quartic_product(x, y), quartic_product(x2, y2)),
{
    let r = u_squared();
    lemma_complex_product_congruent(x.lo, x2.lo, y.lo, y2.lo);
    lemma_complex_product_congruent(x.hi, x2.hi, y.hi, y2.hi);
    lemma_complex_product_congruent(
        r,
        r,
        complex_product(x.hi, y.hi),
        complex_product(x2.hi, y2.hi),
    );
    lemma_complex_sum_congruent(
        complex_product(x.lo, y.lo),
        complex_product(x2.lo, y2.lo),
        complex_product(r, complex_product(x.hi, y.hi)),
        complex_product(r, complex_product(x2.hi, y2.hi)),
    );
    lemma_complex_product_congruent(x.lo, x2.lo, y.hi, y2.hi);
    lemma_complex_product_congruent(x.hi, x2.hi, y.lo, y2.lo);
    lemma_complex_sum_congruent(
        complex_product(x.lo, y.hi),
        complex_product(x2.lo, y2.hi),
        complex_product(x.hi, y.lo),
        complex_product(x2.hi, y2.lo),
    );
}

/// Over the integers, the product distributes over the sum.
pub proof fn lemma_quartic_product_distributes(x: Quartic, y: Quartic, z: Quartic)
    ensures
        quartic_product(quartic_sum(x, y), z) == quartic_sum(
            quartic_product(x, z),
            quartic_product(y, z),
        ),
{
    let r = u_squared();
    lemma_complex_product_distributes(x.lo, y.lo, z.lo);
    lemma_complex_product_distributes(x.hi, y.hi, z.hi);
    lemma_complex_product_distributes(x.lo, y.lo, z.hi);
    lemma_complex_product_distributes(x.hi, y.hi, z.lo);
    lemma_complex_product_distributes(
        complex_product(x.hi, z.hi),
        complex_product(y.hi, z.hi),
        r,
    );
}

/// Over the integers, the last two factors of a product of three can change
/// places: `(xy)z = (xz)y`.
pub proof fn lemma_quartic_product_exchange(x: Quartic, y: Quartic, z: Quartic)
    ensures
        quartic_product(quartic_product(x, y), z) == quartic_product(quartic_product(x, z), y),
{
    let r = u_squared();
    let (a, b) = (x.lo, x.hi);
    let (c, d) = (y.lo, y.hi);
    let (e, f) = (z.lo, z.hi);
    let bd = complex_product(b, d);
    let bf = complex_product(b, f);
    // The four outer products of each side, multiplied out.
    lemma_complex_product_distributes(complex_product(a, c), complex_product(r, bd), e);
    lemma_complex_product_distributes(complex_product(a, d), complex_product(b, c), f);
    lemma_complex_product_distributes(complex_product(a, c), complex_product(r, bd), f);
    lemma_complex_product_distributes(complex_product(a, d), complex_product(b, c), e);
    lemma_complex_product_distributes(complex_product(a, e), complex_product(r, bf), c);
    lemma_complex_product_distributes(complex_product(a, f), complex_product(b, e), d);
    lemma_complex_product_distributes(complex_product(a, e), complex_product(r, bf), d);
    lemma_complex_product_distributes(complex_product(a, f), complex_product(b, e), c);
    lemma_complex_product_distributes(
        complex_product(complex_product(a, d), f),
        complex_product(complex_product(b, c), f),
        r,
    );
    lemma_complex_product_distributes(
        complex_product(complex_product(a, f), d),
        complex_product(complex_product(b, e), d),
        r,
    );
    // The products of three, with their last two factors exchanged.
    lemma_complex_product_exchange(a, c, e);
    lemma_complex_product_exchange(a, d, f);
    lemma_complex_product_exchange(b, c, f);
    lemma_complex_product_exchange(a, c, f);
    lemma_complex_product_exchange(a, d, e);
    lemma_complex_product_exchange(b, c, e);
    lemma_complex_product_exchange(b, d, e);
    lemma_complex_product_exchange(b, d, f);
    // The products that hold `u^2`.
    lemma_complex_product_associates(r, bd, e);
    lemma_complex_product_associates(r, bd, f);
    lemma_complex_product_associates(r, bf, c);
    lemma_complex_product_associates(r, bf, d);
    let left = quartic_product(quartic_product(x, y), z);
    let right = quartic_product(quartic_product(x, z), y);
    assert(left.lo == right.lo);
    assert(left.hi == right.hi);
}

/// Over the integers, one is neutral for the product.
pub proof fn lemma_quartic_product_one(x: Quartic)
    ensures
        quartic_product(quartic_one(), x) == x,
{
    let zero = Complex { re: 0, im: 0 };
    let one = Complex { re: 1, im: 0 };
    assert(complex_product(one, x.lo) == x.lo);
    assert(complex_product(one, x.hi) == x.hi);
    assert(complex_product(zero, x.lo) == zero);
    assert(complex_product(zero, x.hi) == zero);
    assert(complex_product(u_squared(), zero) == zero);
}

/// Over the integers, zero times any number is zero.
pub proof fn lemma_quartic_product_zero(x: Quartic)
    ensures
        quartic_product(quartic_zero(), x) == quartic_zero(),
{
    let zero = Complex { re: 0, im: 0 };
    assert(complex_product(zero, x.lo) == zero);
    assert(complex_product(zero, x.hi) == zero);
    assert(complex_product(u_squared(), zero) == zero);
}

/// A number whose four parts are residues.
pub open spec fn quartic_is_reduced(x: Quartic) -> bool {
    quartic_reduce(x) == x
}

/// Sums and products in the secure field are reduced, and so are zero and
/// one.
pub proof fn lemma_qm31_results_reduced(x: Quartic, y: Quartic)
    ensures
        quartic_is_reduced(qm31_add(x, y)),
        quartic_is_reduced(qm31_mul(x, y)),
        quartic_is_reduced(quartic_reduce(x)),
        quartic_is_reduced(quartic_zero()),
        quartic_is_reduced(quartic_one()),
{
    lemma_quartic_reduce_congruent(quartic_sum(x, y));
    lemma_quartic_reduce_congruent(quartic_product(x, y));
    lemma_quartic_reduce_congruent(x);
}

/// In the secure field, a sum does not depend on how it is bracketed.
pub proof fn lemma_qm31_add_associates(x: Quartic, y: Quartic, z: Quartic)
    ensures
        qm31_add(qm31_add(x, y), z) == qm31_add(x, qm31_add(y, z)),
{
    lemma_quartic_reduce_congruent(quartic_sum(x, y));
    lemma_quartic_reduce_congruent(quartic_sum(y, z));
    lemma_quartic_sum_congruent(qm31_add(x, y), quartic_sum(x, y), z, z);
    lemma_quartic_sum_congruent(x, x, qm31_add(y, z), quartic_sum(y, z));
    assert(quartic_sum(quartic_sum(x, y), z) == quartic_sum(x, quartic_sum(y, z)));
}

/// In the secure field, adding zero to an element leaves it as it is.
pub proof fn lemma_qm31_add_zero(x: Quartic)
    ensures
        qm31_add(quartic_zero(), x) == quartic_reduce(x),
        qm31_add(x, quartic_zero()) == quartic_reduce(x),
{
    assert(quartic_sum(quartic_zero(), x) == x);
    assert(quartic_sum(x, quartic_zero()) == x);
}

/// In the secure field, the product distributes over the sum.
pub proof fn lemma_qm31_mul_distributes(x: Quartic, y: Quartic, z: Quartic)
    ensures
        qm31_mul(qm31_add(x, y), z) == qm31_add(qm31_mul(x, z), qm31_mul(y, z)),
{
    lemma_quartic_reduce_congruent(quartic_sum(x, y));
    lemma_quartic_product_congruent(qm31_add(x, y), quartic_sum(x, y), z, z);
    lemma_quartic_product_distributes(x, y, z);
    lemma_quartic_reduce_congruent(quartic_product(x, z));
    lemma_quartic_reduce_congruent(quartic_product(y, z));
    lemma_quartic_sum_congruent(
        qm31_mul(x, z),
        quartic_product(x, z),
        qm31_mul(y, z),
        quartic_product(y, z),
    );
}

/// In the secure field, the last two factors of a product of three can
/// change places: `(xy)z = (xz)y`.
pub proof fn lemma_qm31_mul_exchange(x: Quartic, y: Quartic, z: Quartic)
    ensures
        qm31_mul(qm31_mul(x, y), z) == qm31_mul(qm31_mul(x, z), y),
{
    lemma_quartic_reduce_congruent(quartic_product(x, y));
    lemma_quartic_reduce_congruent(quartic_product(x, z));
    lemma_quartic_product_congruent(qm31_mul(x, y), quartic_product(x, y), z, z);
    lemma_quartic_product_congruent(qm31_mul(x, z), quartic_product(x, z), y, y);
    lemma_quartic_product_exchange(x, y, z);
}

/// In the secure field, one times an element is that element, and zero
/// times an element is zero.
pub proof fn lemma_qm31_mul_one_zero(x: Quartic)
    ensures
        qm31_mul(quartic_one(), x) == quartic_reduce(x),
        qm31_mul(quartic_zero(), x) == quartic_zero(),
{
    lemma_quartic_product_one(x);
    lemma_quartic_product_zero(x);
}

/// An element `(a + bi) + (c + di)u` of the secure field.
#[derive(Clone, Copy, Debug, PartialEq, Eq, Structural)]
pub struct QM31(pub CM31, pub CM31);

pub type SecureField = QM31;

pub const SECURE_EXTENSION_DEGREE: usize = 4;

impl View for QM31 {
    type V = Quartic;

    open spec fn view(&self) -> Quartic {
        Quartic { lo: self.0@, hi: self.1@ }
    }
}

impl QM31 {
    /// Elements with the same four residues are the same.
    pub proof fn lemma_same_residues(a: Self, b: Self)
        requires
            a@ == b@,
        ensures
            a == b,
    {
        M31::lemma_same_residue(a.0.0, b.0.0);
        M31::lemma_same_residue(a.0.1, b.0.1);
        M31::lemma_same_residue(a.1.0, b.1.0);
        M31::lemma_same_residue(a.1.1, b.1.1);
    }

    /// The element `(a + bi) + (c + di)u`, for residues `a`, `b`, `c`, `d`.
    pub fn from_u32_unchecked(a: u32, b: u32, c: u32, d: u32) -> (r: Self)
        requires
            a < P,
            b < P,
            c < P,
            d < P,
        ensures
            r@ == (Quartic {
                lo: Complex { re: a as int, im: b as int },
                hi: Complex { re: c as int, im: d as int },
            }),
    {
        QM31(CM31::from_u32_unchecked(a, b), CM31::from_u32_unchecked(c, d))
    }

    /// The element `(a + bi) + (c + di)u`.
    pub fn from_m31(a: M31, b: M31, c: M31, d: M31) -> (r: Self)
        ensures
            r@ == (Quartic { lo: Complex { re: a@, im: b@ }, hi: Complex { re: c@, im: d@ } }),
    {
        QM31(CM31::from_m31(a, b), CM31::from_m31(c, d))
    }

    /// The element of the secure field that the base-field element `x` is.
    pub fn from_base(x: M31) -> (r: Self)
        ensures
            r@ == quartic_from_base(x@),
    {
        QM31(CM31::from_m31(x, M31::zero()), CM31::zero())
    }

    /// The four base-field parts `a`, `b`, `c`, `d` of the element.
    pub fn to_m31_array(self) -> (r: [M31; SECURE_EXTENSION_DEGREE])
        ensures
            r@[0]@ == self@.lo.re,
            r@[1]@ == self@.lo.im,
            r@[2]@ == self@.hi.re,
            r@[3]@ == self@.hi.im,
    {
        [self.0.0, self.0.1, self.1.0, self.1.1]
    }

    pub fn zero() -> (r: Self)
        ensures
            r@ == quartic_zero(),
    {
        QM31(CM31::zero(), CM31::zero())
    }

    pub fn one() -> (r: Self)
        ensures
            r@ == quartic_one(),
    {
        QM31(CM31::one(), CM31::zero())
    }

    pub fn add(self, rhs: Self) -> (r: Self)
        ensures
            r@ == qm31_add(self@, rhs@),
    {
        QM31(self.0.add(rhs.0), self.1.add(rhs.1))
    }

    pub fn mul(self, rhs: Self) -> (r: Self)
        ensures
            r@ == qm31_mul(self@, rhs@),
    {
        // (a + bu) * (c + du) = (ac + rbd) + (ad + bc)u, with r = u^2.
        let r = CM31::from_u32_unchecked(2, 1);
        proof {
            let (a, b) = (self.0@, self.1@);
            let (c, d) = (rhs.0@, rhs.1@);
            let ac = complex_product(a, c);
            let bd = complex_product(b, d);
            let ad = complex_product(a, d);
            let bc = complex_product(b, c);
            lemma_complex_reduce_congruent(ac);
            lemma_complex_reduce_congruent(bd);
            lemma_complex_reduce_congruent(ad);
            lemma_complex_reduce_congruent(bc);
            lemma_complex_product_congruent(u_squared(), u_squared(), complex_reduce(bd), bd);
            lemma_complex_reduce_congruent(complex_product(u_squared(), complex_reduce(bd)));
            lemma_complex_sum_congruent(
                complex_reduce(ac),
                ac,
                complex_reduce(complex_product(u_squared(), complex_reduce(bd))),
                complex_product(u_squared(), bd),
            );
            lemma_complex_sum_congruent(complex_reduce(ad), ad, complex_reduce(bc), bc);
        }
        QM31(
            self.0.mul(rhs.0).add(r.mul(self.1.mul(rhs.1))),
            self.0.mul(rhs.1).add(self.1.mul(rhs.0)),
        )
    }
}

} // verus!
