//! The prime field of order `2^31 - 1`.

use vstd::prelude::*;

verus! {

/// The field's order, `2^31 - 1`.
pub const P: u32 = 2147483647;

/// The sum of two residues.
pub open spec fn add_mod(a: int, b: int) -> int {
    (a + b) % (P as int)
}

/// The difference of two residues.
pub open spec fn sub_mod(a: int, b: int) -> int {
    (a - b) % (P as int)
}

/// The product of two residues.
pub open spec fn mul_mod(a: int, b: int) -> int {
    (a * b) % (P as int)
}

/// Sums of congruent numbers are congruent.
pub proof fn lemma_add_congruent(a: int, a2: int, b: int, b2: int)
    requires
        a % (P as int) == a2 % (P as int),
        b % (P as int) == b2 % (P as int),
    ensures
        (a + b) % (P as int) == (a2 + b2) % (P as int),
{
    vstd::arithmetic::div_mod::lemma_add_mod_noop(a, b, P as int);
    vstd::arithmetic::div_mod::lemma_add_mod_noop(a2, b2, P as int);
}

/// Differences of congruent numbers are congruent.
pub proof fn lemma_sub_congruent(a: int, a2: int, b: int, b2: int)
    requires
        a % (P as int) == a2 % (P as int),
        b % (P as int) == b2 % (P as int),
    ensures
        (a - b) % (P as int) == (a2 - b2) % (P as int),
{
    vstd::arithmetic::div_mod::lemma_sub_mod_noop(a, b, P as int);
    vstd::arithmetic::div_mod::lemma_sub_mod_noop(a2, b2, P as int);
}

/// Products of congruent numbers are congruent.
pub proof fn lemma_mul_congruent(a: int, a2: int, b: int, b2: int)
    requires
        a % (P as int) == a2 % (P as int),
        b % (P as int) == b2 % (P as int),
    ensures
        (a * b) % (P as int) == (a2 * b2) % (P as int),
{
    vstd::arithmetic::div_mod::lemma_mul_mod_noop_general(a, b, P as int);
    vstd::arithmetic::div_mod::lemma_mul_mod_noop_general(a2, b2, P as int);
}

/// A residue is congruent to the number it was taken from.
pub proof fn lemma_residue_congruent(a: int)
    ensures
        (a % (P as int)) % (P as int) == a % (P as int),
        0 <= a % (P as int) < P,
{
    vstd::arithmetic::div_mod::lemma_mod_twice(a, P as int);
}

/// An element of the field, held as its least non-negative residue.
#[derive(Clone, Copy, Debug, PartialEq, Eq, Structural)]
pub struct M31(u32);

pub type BaseField = M31;

impl View for M31 {
    type V = int;

    /// The residue, in `[0, P)` for every value that code can hold.
    closed spec fn view(&self) -> int {
        self.0 as int
    }
}

impl M31 {
    /// Elements with the same residue are the same.
    pub proof fn lemma_same_residue(a: Self, b: Self)
        requires
            a@ == b@,
        ensures
            a == b,
    {
    }

    #[verifier::type_invariant]
    spec fn reduced(self) -> bool {
        self.0 < P
    }

    /// The element with residue `arg`, which must already be reduced.
    pub fn from_u32_unchecked(arg: u32) -> (r: Self)
        requires
            arg < P,
        ensures
            r@ == arg,
    {
        M31(arg)
    }

    /// The element that `val` stands for.
    pub fn reduce(val: u64) -> (r: Self)
        ensures
            r@ == val % (P as u64),
    {
        let residue: u64 = val % (P as u64);
        M31(residue as u32)
    }

    /// The residue of the element, in `[0, P)`.
    pub fn value(self) -> (r: u32)
        ensures
            r == self@,
            r < P,
    {
        proof {
            use_type_invariant(&self);
        }
        self.0
    }

    pub fn zero() -> (r: Self)
        ensures
            r@ == 0,
    {
        M31(0)
    }

    pub fn one() -> (r: Self)
        ensures
            r@ == 1,
    {
        M31(1)
    }

    pub fn add(self, rhs: Self) -> (r: Self)
        ensures
            r@ == add_mod(self@, rhs@),
    {
        proof {
            use_type_invariant(&self);
            use_type_invariant(&rhs);
        }
        let sum: u32 = self.0 + rhs.0;
        if sum >= P {
            M31(sum - P)
        } else {
            M31(sum)
        }
    }

    pub fn neg(self) -> (r: Self)
        ensures
            r@ == sub_mod(0, self@),
    {
        proof {
            use_type_invariant(&self);
        }
        if self.0 == 0 {
            M31(0)
        } else {
            M31(P - self.0)
        }
    }

    pub fn sub(self, rhs: Self) -> (r: Self)
        ensures
            r@ == sub_mod(self@, rhs@),
    {
        proof {
            use_type_invariant(&self);
            use_type_invariant(&rhs);
        }
        if self.0 >= rhs.0 {
            M31(self.0 - rhs.0)
        } else {
            M31(self.0 + P - rhs.0)
        }
    }

    pub fn mul(self, rhs: Self) -> (r: Self)
        ensures
            r@ == mul_mod(self@, rhs@),
    {
        proof {
            use_type_invariant(&self);
            use_type_invariant(&rhs);
            assert((self.0 as u64) * (rhs.0 as u64) <= 0x7fff_ffff * 0x7fff_ffff) by (nonlinear_arith)
                requires
                    self.0 < 0x7fff_ffff,
                    rhs.0 < 0x7fff_ffff,
            ;
        }
        Self::reduce((self.0 as u64) * (rhs.0 as u64))
    }
}

} // verus!
