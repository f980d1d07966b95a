//! Bit-reversed indexing: the index permutation, its algebra, and the
//! element-by-element reordering of a power-of-two sized slice.

use crate::math::{is_power_of_two, log2_floor, log2_floor_spec};
use vstd::arithmetic::power2::{
    lemma2_to64, lemma_pow2_adds, lemma_pow2_pos, lemma_pow2_strictly_increases,
    lemma_pow2_unfold, pow2,
};
use vstd::prelude::*;

verus! {

/// The number whose `bits` low binary digits are those of `i` in opposite
/// order. Digits of `i` from position `bits` upwards play no part.
pub open spec fn reversed_bits(i: nat, bits: nat) -> nat
    decreases bits,
{
    if bits == 0 {
        0
    } else {
        (i % 2) * pow2((bits - 1) as nat) + reversed_bits(i / 2, (bits - 1) as nat)
    }
}

/// The sequence that holds at each position `i` the element of `s` at the
/// bit-reversed position, for `s` of length `2^bits`.
pub open spec fn bit_reversed_with<T>(s: Seq<T>, bits: nat) -> Seq<T> {
    Seq::new(s.len(), |i: int| s[reversed_bits(i as nat, bits) as int])
}

/// The bit-reversal permutation of a sequence whose length is a power of two.
pub open spec fn bit_reversed<T>(s: Seq<T>) -> Seq<T> {
    bit_reversed_with(s, log2_floor_spec(s.len()))
}

/// A reversed index has no digit beyond the reversed ones.
pub proof fn lemma_reversed_bits_bound(i: nat, bits: nat)
    ensures
        reversed_bits(i, bits) < pow2(bits),
    decreases bits,
{
    lemma2_to64();
    if bits > 0 {
        let rest = (bits - 1) as nat;
        lemma_reversed_bits_bound(i / 2, rest);
        lemma_pow2_unfold(bits);
        assert((i % 2) * pow2(rest) <= pow2(rest)) by (nonlinear_arith)
            requires
                i % 2 <= 1,
        ;
    }
}

/// Reversing a concatenation of digit groups reverses each group and swaps
/// the groups: with `lo` of `lo_bits` digits below `hi`,
/// `rev(hi ‖ lo) = rev(lo) ‖ rev(hi)`.
pub proof fn lemma_reversed_bits_concat(hi: nat, lo: nat, hi_bits: nat, lo_bits: nat)
    requires
        lo < pow2(lo_bits),
    ensures
        reversed_bits(hi * pow2(lo_bits) + lo, lo_bits + hi_bits) == reversed_bits(lo, lo_bits)
            * pow2(hi_bits) + reversed_bits(hi, hi_bits),
    decreases lo_bits,
{
    lemma2_to64();
    if lo_bits == 0 {
        assert(hi * 1 + 0 == hi);
        assert(0 * pow2(hi_bits) == 0);
    } else {
        let m = (lo_bits - 1) as nat;
        let half = pow2(m);
        let whole = hi * pow2(lo_bits) + lo;
        lemma_pow2_unfold(lo_bits);
        lemma_pow2_pos(m);
        assert(hi * pow2(lo_bits) == 2 * (hi * half)) by (nonlinear_arith)
            requires
                pow2(lo_bits) == 2 * half,
        ;
        assert(whole % 2 == lo % 2);
        assert(whole / 2 == hi * half + lo / 2);
        lemma_reversed_bits_concat(hi, lo / 2, hi_bits, m);
        lemma_pow2_adds(m, hi_bits);
        let bit = lo % 2;
        let tail = reversed_bits(lo / 2, m);
        assert((bit * half + tail) * pow2(hi_bits) == bit * pow2(m + hi_bits) + tail * pow2(
            hi_bits,
        )) by (nonlinear_arith)
            requires
                pow2(m + hi_bits) == half * pow2(hi_bits),
        ;
        assert(lo_bits + hi_bits - 1 == m + hi_bits);
    }
}

/// Reversing the same digits twice gives the index back.
pub proof fn lemma_reversed_bits_involution(i: nat, bits: nat)
    requires
        i < pow2(bits),
    ensures
        reversed_bits(reversed_bits(i, bits), bits) == i,
    decreases bits,
{
    lemma2_to64();
    if bits > 0 {
        let m = (bits - 1) as nat;
        lemma_pow2_unfold(bits);
        lemma_reversed_bits_involution(i / 2, m);
        lemma_reversed_bits_bound(i / 2, m);
        let lo = reversed_bits(i / 2, m);
        lemma_reversed_bits_concat(i % 2, lo, 1, m);
        assert(reversed_bits(i % 2, 1) == i % 2) by {
            reveal_with_fuel(reversed_bits, 2);
            assert(((i % 2) % 2) * 1 + 0 == i % 2);
        }
        assert(m + 1 == bits);
        assert((i / 2) * pow2(1) + i % 2 == i);
    }
}

/// Bit-reversing a sequence twice gives the sequence back.
pub proof fn lemma_bit_reversed_with_involution<T>(s: Seq<T>, bits: nat)
    requires
        s.len() == pow2(bits),
    ensures
        bit_reversed_with(bit_reversed_with(s, bits), bits) == s,
{
    let once = bit_reversed_with(s, bits);
    let twice = bit_reversed_with(once, bits);
    assert forall|i: int| 0 <= i < s.len() implies twice[i] == s[i] by {
        lemma_reversed_bits_bound(i as nat, bits);
        lemma_reversed_bits_involution(i as nat, bits);
    }
    assert(twice =~= s);
}

/// The index whose `log_size` low binary digits are those of `i` in opposite
/// order.
pub fn bit_reverse_index(i: usize, log_size: u32) -> (r: usize)
    requires
        pow2(log_size as nat) - 1 <= usize::MAX,
    ensures
        r == reversed_bits(i as nat, log_size as nat),
        r < pow2(log_size as nat),
{
    let mut r: usize = 0;
    let mut rest: usize = i;
    let mut k: u32 = 0;
    proof {
        lemma2_to64();
        assert(0 * pow2(log_size as nat) == 0);
    }
    while k < log_size
        invariant
            k <= log_size,
            pow2(log_size as nat) - 1 <= usize::MAX,
            r < pow2(k as nat),
            reversed_bits(i as nat, log_size as nat) == r * pow2((log_size - k) as nat)
                + reversed_bits(rest as nat, (log_size - k) as nat),
        decreases log_size - k,
    {
        proof {
            let left = (log_size - k) as nat;
            let next = (left - 1) as nat;
            lemma_pow2_unfold(left);
            lemma_pow2_unfold((k + 1) as nat);
            if k + 1 < log_size {
                lemma_pow2_strictly_increases((k + 1) as nat, log_size as nat);
            }
            assert((2 * r + rest % 2) * pow2(next) == r * pow2(left) + (rest % 2) * pow2(next))
                by (nonlinear_arith)
                requires
                    pow2(left) == 2 * pow2(next),
            ;
        }
        r = 2 * r + rest % 2;
        rest = rest / 2;
        k = k + 1;
    }
    proof {
        assert(r * pow2(0) == r) by (nonlinear_arith)
            requires
                pow2(0) == 1,
        ;
    }
    r
}

/// Which positions of a slice under bit-reversal hold their final element
/// once every position below `done` has been visited: those whose pair has
/// its smaller member below `done`.
pub open spec fn settled(p: int, bits: nat, done: int) -> bool {
    p < done || (reversed_bits(p as nat, bits) as int) < done
}

/// Reorders `v`, of length `2^n`, so that each position `i` holds the
/// element that stood at the position with the `n` digits of `i` reversed.
pub fn bit_reverse<T: Copy>(v: &mut [T])
    requires
        is_power_of_two(old(v)@.len()),
    ensures
        final(v)@ == bit_reversed(old(v)@),
{
    let n: usize = v.len();
    proof {
        lemma_pow2_pos(log2_floor_spec(n as nat));
    }
    let log_n: u32 = log2_floor(n) as u32;
    let ghost bits = log_n as nat;
    let mut i: usize = 0;
    while i < n
        invariant
            i <= n,
            n == pow2(bits),
            bits == log_n,
            bits == log2_floor_spec(old(v)@.len()),
            v@.len() == n,
            old(v)@.len() == n,
            forall|p: int|
                0 <= p < n ==> v@[p] == (if settled(p, bits, i as int) {
                    old(v)@[reversed_bits(p as nat, bits) as int]
                } else {
                    old(v)@[p]
                }),
        decreases n - i,
    {
        let j: usize = bit_reverse_index(i, log_n);
        proof {
            lemma_reversed_bits_involution(i as nat, bits);
        }
        let ghost before = v@;
        if j > i {
            let first: T = v[i];
            let second: T = v[j];
            v[i] = second;
            v[j] = first;
        }
        proof {
            assert forall|p: int| 0 <= p < n implies v@[p] == (if settled(p, bits, i + 1) {
                old(v)@[reversed_bits(p as nat, bits) as int]
            } else {
                old(v)@[p]
            }) by {
                lemma_reversed_bits_involution(p as nat, bits);
                lemma_reversed_bits_bound(p as nat, bits);
                let q = reversed_bits(p as nat, bits) as int;
                assert(before[p] == (if settled(p, bits, i as int) {
                    old(v)@[q]
                } else {
                    old(v)@[p]
                }));
                if q == i {
                    assert(p == j);
                }
            }
        }
        i = i + 1;
    }
    proof {
        assert forall|p: int| 0 <= p < n implies settled(p, bits, n as int) by {}
        assert(v@ =~= bit_reversed(old(v)@));
    }
}

} // verus!
