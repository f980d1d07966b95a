//! Small integer helpers: binary logarithms, neighbouring powers of two and
//! exact or rounded-up division.

use vstd::arithmetic::power2::{
    lemma2_to64, lemma_pow2_pos, lemma_pow2_strictly_increases, lemma_pow2_unfold, pow2,
};
use vstd::prelude::*;
use vstd::std_specs::bits::u64_leading_zeros;

verus! {

/// The number of binary digits of `n`: the least `k` with `n < 2^k`.
pub open spec fn bit_length(n: nat) -> nat
    decreases n,
{
    if n == 0 {
        0
    } else {
        1 + bit_length(n / 2)
    }
}

/// The binary logarithm of `n`, rounded down. Meaningful for `n > 0`.
pub open spec fn log2_floor_spec(n: nat) -> nat {
    (bit_length(n) - 1) as nat
}

/// The binary logarithm of `n`, rounded up. Meaningful for `n > 0`.
pub open spec fn log2_ceil_spec(n: nat) -> nat {
    bit_length((n - 1) as nat)
}

/// `n` is `2^k` for some `k`.
pub open spec fn is_power_of_two(n: nat) -> bool {
    n == pow2(log2_floor_spec(n))
}

/// `bit_length(n)` is the one `k` with `2^(k-1) <= n < 2^k`.
pub proof fn lemma_bit_length_bounds(n: nat)
    ensures
        n < pow2(bit_length(n)),
        n > 0 ==> pow2((bit_length(n) - 1) as nat) <= n,
    decreases n,
{
    lemma2_to64();
    if n > 0 {
        lemma_bit_length_bounds(n / 2);
        lemma_pow2_unfold(bit_length(n));
        if n / 2 > 0 {
            lemma_pow2_unfold(bit_length(n / 2));
        }
    }
}

/// Any `k` with `2^(k-1) <= n < 2^k` is `bit_length(n)`.
pub proof fn lemma_bit_length_unique(n: nat, k: nat)
    requires
        n < pow2(k),
        k > 0 ==> pow2((k - 1) as nat) <= n,
    ensures
        bit_length(n) == k,
{
    let b = bit_length(n);
    lemma_bit_length_bounds(n);
    lemma_pow2_pos(k);
    if b < k {
        if b < k - 1 {
            lemma_pow2_strictly_increases(b, (k - 1) as nat);
        }
    } else if k < b {
        if k < b - 1 {
            lemma_pow2_strictly_increases(k, (b - 1) as nat);
        }
    }
}

/// The binary logarithm of a power of two is its exponent.
pub proof fn lemma_log2_of_pow2(k: nat)
    ensures
        log2_floor_spec(pow2(k)) == k,
        log2_ceil_spec(pow2(k)) == k,
        is_power_of_two(pow2(k)),
{
    lemma_pow2_pos(k);
    lemma_pow2_unfold(k + 1);
    lemma_bit_length_unique(pow2(k), k + 1);
    if k > 0 {
        lemma_pow2_unfold(k);
    }
    lemma_bit_length_unique((pow2(k) - 1) as nat, k);
}

/// The leading zeros of a 64-bit number are the digits that it lacks.
proof fn lemma_leading_zeros_is_bit_length(i: u64)
    ensures
        u64_leading_zeros(i) == 64 - bit_length(i as nat),
    decreases i,
{
    reveal(u64_leading_zeros);
    if i != 0 {
        lemma_leading_zeros_is_bit_length(i / 2);
    }
}

/// The number of binary digits of `n`.
fn bit_length_of(n: usize) -> (r: usize)
    ensures
        r == bit_length(n as nat),
        r <= 64,
{
    let wide: u64 = n as u64;
    proof {
        lemma_leading_zeros_is_bit_length(wide);
        vstd::std_specs::bits::axiom_u64_leading_zeros(wide);
    }
    (64 - wide.leading_zeros()) as usize
}

/// `2^e` as a machine integer.
pub fn pow2_usize(e: usize) -> (r: usize)
    requires
        pow2(e as nat) <= usize::MAX,
    ensures
        r == pow2(e as nat),
{
    let mut r: usize = 1;
    let mut k: usize = 0;
    proof {
        lemma2_to64();
    }
    while k < e
        invariant
            k <= e,
            r == pow2(k as nat),
            pow2(e as nat) <= usize::MAX,
        decreases e - k,
    {
        proof {
            lemma_pow2_unfold((k + 1) as nat);
            if k + 1 < e {
                lemma_pow2_strictly_increases((k + 1) as nat, e as nat);
            }
        }
        r = r * 2;
        k = k + 1;
    }
    r
}

/// The binary logarithm of `n`, rounded up: the least `r` with `n <= 2^r`.
#[inline]
pub fn log2_ceil(n: usize) -> (r: usize)
    requires
        n != 0,
    ensures
        r == log2_ceil_spec(n as nat),
        r <= 64,
        n <= pow2(r as nat),
        r > 0 ==> pow2((r - 1) as nat) < n,
{
    proof {
        lemma_bit_length_bounds((n - 1) as nat);
    }
    bit_length_of(n - 1)
}

/// The binary logarithm of `n`, rounded down: the one `r` with
/// `2^r <= n < 2^(r+1)`.
#[inline]
pub fn log2_floor(n: usize) -> (r: usize)
    requires
        n != 0,
    ensures
        r == log2_floor_spec(n as nat),
        r < 64,
        pow2(r as nat) <= n < pow2((r + 1) as nat),
{
    proof {
        lemma_bit_length_bounds(n as nat);
    }
    bit_length_of(n) - 1
}

/// The least power of two that is at least `n`.
#[inline]
pub fn next_pow_two(n: usize) -> (r: usize)
    requires
        n != 0,
        pow2(log2_ceil_spec(n as nat)) <= usize::MAX,
    ensures
        r == pow2(log2_ceil_spec(n as nat)),
        is_power_of_two(r as nat),
        n <= r,
        r < 2 * n,
{
    let e = log2_ceil(n);
    proof {
        lemma_log2_of_pow2(e as nat);
        lemma2_to64();
        if e > 0 {
            lemma_pow2_unfold(e as nat);
        }
    }
    pow2_usize(e)
}

/// The greatest power of two that is at most `n`.
#[inline]
pub fn prev_pow_two(n: usize) -> (r: usize)
    requires
        n != 0,
    ensures
        r == pow2(log2_floor_spec(n as nat)),
        is_power_of_two(r as nat),
        r <= n,
        n < 2 * r,
{
    let e = log2_floor(n);
    proof {
        lemma_log2_of_pow2(e as nat);
        lemma_pow2_unfold((e + 1) as nat);
    }
    pow2_usize(e)
}

/// The quotient `a / b`, rounded up.
#[inline]
pub fn usize_div_ceil(a: usize, b: usize) -> (r: usize)
    requires
        b != 0,
    ensures
        r == (a + b - 1) / (b as int),
        (r - 1) * b < a <= r * b,
{
    let q = a / b;
    let m = a % b;
    proof {
        lemma_div_ceil(a as int, b as int);
    }
    if m == 0 {
        q
    } else {
        q + 1
    }
}

/// The quotient rounded up is the quotient, plus one if there is a
/// remainder.
proof fn lemma_div_ceil(a: int, b: int)
    requires
        0 <= a,
        0 < b,
    ensures
        (a + b - 1) / b == if a % b == 0 {
            a / b
        } else {
            a / b + 1
        },
        ((a + b - 1) / b - 1) * b < a <= ((a + b - 1) / b) * b,
        a % b != 0 ==> a / b < a,
{
    let q = a / b;
    let m = a % b;
    vstd::arithmetic::div_mod::lemma_fundamental_div_mod(a, b);
    assert(a == b * q + m);
    assert(q * b == b * q) by (nonlinear_arith);
    assert((q + 1) * b == q * b + b) by (nonlinear_arith);
    assert((q - 1) * b == q * b - b) by (nonlinear_arith);
    if m == 0 {
        vstd::arithmetic::div_mod::lemma_fundamental_div_mod_converse(a + b - 1, b, q, b - 1);
    } else {
        assert(0 <= q) by {
            vstd::arithmetic::div_mod::lemma_div_pos_is_pos(a, b);
        }
        assert(2 * q <= q * b) by (nonlinear_arith)
            requires
                0 <= q,
                2 <= b,
        ;
        vstd::arithmetic::div_mod::lemma_fundamental_div_mod_converse(a + b - 1, b, q + 1, m - 1);
    }
}

/// The quotient `a / b` of a division that leaves no remainder.
#[inline]
pub fn usize_safe_div(a: usize, b: usize) -> (quotient: usize)
    requires
        b != 0,
        a % b == 0,
    ensures
        quotient * b == a,
        quotient == a / b,
{
    proof {
        vstd::arithmetic::div_mod::lemma_fundamental_div_mod(a as int, b as int);
        assert((a / b) * b == b * (a / b)) by (nonlinear_arith);
    }
    a / b
}

} // verus!
