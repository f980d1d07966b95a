//! The quadratic extension of the base field by a root `i` of `x^2 + 1`.

use crate::fields::m31::{
    lemma_add_congruent, lemma_mul_congruent, lemma_residue_congruent, lemma_sub_congruent, M31, P,
};
use vstd::arithmetic::mul::{
    lemma_mul_is_associative, lemma_mul_is_commutative, lemma_mul_is_distributive_add,
    lemma_mul_is_distributive_add_other_way, lemma_mul_is_distributive_sub,
    lemma_mul_is_distributive_sub_other_way,
};
use vstd::prelude::*;

verus! {

/// A number `re + im·i` with integer parts, where `i^2 = -1`.
pub struct Complex {
    pub re: int,
    pub im: int,
}

/// The number with both parts brought to their residues.
pub open spec fn complex_reduce(x: Complex) -> Complex {
    Complex { re: x.re % (P as int), im: x.im % (P as int) }
}

/// The sum over the integers.
pub open spec fn complex_sum(x: Complex, y: Complex) -> Complex {
    Complex { re: x.re + y.re, im: x.im + y.im }
}

/// The product over the integers, with `i^2 = -1`.
pub open spec fn complex_product(x: Complex, y: Complex) -> Complex {
    Complex { re: x.re * y.re - x.im * y.im, im: x.re * y.im + x.im * y.re }
}

/// The sum in the field.
pub open spec fn cm31_add(x: Complex, y: Complex) -> Complex {
    complex_reduce(complex_sum(x, y))
}

/// The product in the field.
pub open spec fn cm31_mul(x: Complex, y: Complex) -> Complex {
    complex_reduce(complex_product(x, y))
}

/// Two numbers that stand for the same field element.
pub open spec fn complex_congruent(x: Complex, y: Complex) -> bool {
    complex_reduce(x) == complex_reduce(y)
}

/// A reduced number stands for the element that it was reduced from.
pub proof fn lemma_complex_reduce_congruent(x: Complex)
    ensures
        complex_congruent(complex_reduce(x), x),
{
    lemma_residue_congruent(x.re);
    lemma_residue_congruent(x.im);
}

/// Sums of congruent numbers are congruent.
pub proof fn lemma_complex_sum_congruent(x: Complex, x2: Complex, y: Complex, y2: Complex)
    requires
        complex_congruent(x, x2),
        complex_congruent(y, y2),
    ensures
        complex_congruent(complex_sum(x, y), complex_sum(x2, y2)),
{
    lemma_add_congruent(x.re, x2.re, y.re, y2.re);
    lemma_add_congruent(x.im, x2.im, y.im, y2.im);
}

/// Products of congruent numbers are congruent.
pub proof fn lemma_complex_product_congruent(x: Complex, x2: Complex, y: Complex, y2: Complex)
    requires
        complex_congruent(x, x2),
        complex_congruent(y, y2),
    ensures
        complex_congruent(complex_product(x, y), complex_product(x2, y2)),
{
    lemma_mul_congruent(x.re, x2.re, y.re, y2.re);
    lemma_mul_congruent(x.im, x2.im, y.im, y2.im);
    lemma_mul_congruent(x.re, x2.re, y.im, y2.im);
    lemma_mul_congruent(x.im, x2.im, y.re, y2.re);
    lemma_sub_congruent(x.re * y.re, x2.re * y2.re, x.im * y.im, x2.im * y2.im);
    lemma_add_congruent(x.re * y.im, x2.re * y2.im, x.im * y.re, x2.im * y2.re);
}

/// Over the integers, the product does not depend on the order of its
/// factors.
pub proof fn lemma_complex_product_commutes(x: Complex, y: Complex)
    ensures
        complex_product(x, y) == complex_product(y, x),
{
    lemma_mul_is_commutative(x.re, y.re);
    lemma_mul_is_commutative(x.im, y.im);
    lemma_mul_is_commutative(x.re, y.im);
    lemma_mul_is_commutative(x.im, y.re);
}

/// Over the integers, the product distributes over the sum.
pub proof fn lemma_complex_product_distributes(x: Complex, y: Complex, z: Complex)
    ensures
        complex_product(complex_sum(x, y), z) == complex_sum(
            complex_product(x, z),
            complex_product(y, z),
        ),
        complex_product(z, complex_sum(x, y)) == complex_sum(
            complex_product(z, x),
            complex_product(z, y),
        ),
{
    lemma_mul_is_distributive_add_other_way(z.re, x.re, y.re);
    lemma_mul_is_distributive_add_other_way(z.im, x.im, y.im);
    lemma_mul_is_distributive_add_other_way(z.im, x.re, y.re);
    lemma_mul_is_distributive_add_other_way(z.re, x.im, y.im);
    lemma_complex_product_commutes(z, complex_sum(x, y));
    lemma_complex_product_commutes(z, x);
    lemma_complex_product_commutes(z, y);
}

/// Over the integers, a product of three does not depend on how it is
/// bracketed.
pub proof fn lemma_complex_product_associates(x: Complex, y: Complex, z: Complex)
    ensures
        complex_product(complex_product(x, y), z) == complex_product(x, complex_product(y, z)),
{
    let (a, b) = (x.re, x.im);
    let (c, d) = (y.re, y.im);
    let (e, f) = (z.re, z.im);
    // The left side, multiplied out.
    lemma_mul_is_distributive_sub_other_way(e, a * c, b * d);
    lemma_mul_is_distributive_add_other_way(f, a * d, b * c);
    lemma_mul_is_distributive_sub_other_way(f, a * c, b * d);
    lemma_mul_is_distributive_add_other_way(e, a * d, b * c);
    // The right side, multiplied out.
    lemma_mul_is_distributive_sub(a, c * e, d * f);
    lemma_mul_is_distributive_add(b, c * f, d * e);
    lemma_mul_is_distributive_add(a, c * f, d * e);
    lemma_mul_is_distributive_sub(b, c * e, d * f);
    // The eight products of three, bracketed either way.
    lemma_mul_is_associative(a, c, e);
    lemma_mul_is_associative(b, d, e);
    lemma_mul_is_associative(a, d, f);
    lemma_mul_is_associative(b, c, f);
    lemma_mul_is_associative(a, c, f);
    lemma_mul_is_associative(b, d, f);
    lemma_mul_is_associative(a, d, e);
    lemma_mul_is_associative(b, c, e);
}

/// Over the integers, the last two factors of a product of three can change
/// places: `(xy)z = (xz)y`.
pub proof fn lemma_complex_product_exchange(x: Complex, y: Complex, z: Complex)
    ensures
        complex_product(complex_product(x, y), z) == complex_product(complex_product(x, z), y),
{
    lemma_complex_product_associates(x, y, z);
    lemma_complex_product_commutes(y, z);
    lemma_complex_product_associates(x, z, y);
}

/// An element `a + bi` of the field, with `a` and `b` in the base field.
#[derive(Clone, Copy, Debug, PartialEq, Eq, Structural)]
pub struct CM31(pub M31, pub M31);

impl View for CM31 {
    type V = Complex;

    open spec fn view(&self) -> Complex {
        Complex { re: self.0@, im: self.1@ }
    }
}

impl CM31 {
    /// The element `a + bi`, for residues `a` and `b`.
    pub fn from_u32_unchecked(a: u32, b: u32) -> (r: Self)
        requires
            a < P,
            b < P,
        ensures
            r@ == (Complex { re: a as int, im: b as int }),
    {
        CM31(M31::from_u32_unchecked(a), M31::from_u32_unchecked(b))
    }

    /// The element `a + bi`.
    pub fn from_m31(a: M31, b: M31) -> (r: Self)
        ensures
            r@ == (Complex { re: a@, im: b@ }),
    {
        CM31(a, b)
    }

    pub fn zero() -> (r: Self)
        ensures
            r@ == (Complex { re: 0, im: 0 }),
    {
        CM31(M31::zero(), M31::zero())
    }

    pub fn one() -> (r: Self)
        ensures
            r@ == (Complex { re: 1, im: 0 }),
    {
        CM31(M31::one(), M31::zero())
    }

    pub fn add(self, rhs: Self) -> (r: Self)
        ensures
            r@ == cm31_add(self@, rhs@),
    {
        CM31(self.0.add(rhs.0), self.1.add(rhs.1))
    }

    pub fn mul(self, rhs: Self) -> (r: Self)
        ensures
            r@ == cm31_mul(self@, rhs@),
    {
        // (a + bi) * (c + di) = (ac - bd) + (ad + bc)i.
        proof {
            let a = self.0@;
            let b = self.1@;
            let c = rhs.0@;
            let d = rhs.1@;
            vstd::arithmetic::div_mod::lemma_sub_mod_noop(a * c, b * d, P as int);
            vstd::arithmetic::div_mod::lemma_add_mod_noop(a * d, b * c, P as int);
        }
        CM31(
            self.0.mul(rhs.0).sub(self.1.mul(rhs.1)),
            self.0.mul(rhs.1).add(self.1.mul(rhs.0)),
        )
    }
}

} // verus!
