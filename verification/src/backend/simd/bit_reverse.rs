//! The bit-reversal permutation of a column of packed base-field words.

use crate::backend::simd::m31::{unpacked, PackedBaseField, PackedM31};
use crate::backend::simd::utils::{LoHiInterleaveHiHi, LoLoInterleaveHiLo};
use crate::fields::m31::M31;
use crate::math::{
    is_power_of_two, lemma_log2_of_pow2, log2_floor, log2_floor_spec, pow2_usize,
};
use crate::utils::{
    bit_reverse_index, bit_reversed, lemma_reversed_bits_bound, lemma_reversed_bits_concat,
    lemma_reversed_bits_involution, reversed_bits,
};
use vstd::arithmetic::power2::{lemma2_to64, lemma_pow2_adds, lemma_pow2_pos, pow2};
use vstd::prelude::*;

verus! {

pub const VEC_BITS: u32 = 4;

pub const W_BITS: u32 = 3;

pub const MIN_LOG_SIZE: u32 = 2 * W_BITS + VEC_BITS;

/// Where, in a block of sixteen words taken as 256 elements, one round of
/// interleaving takes the element at position `c` from. Writing a position
/// as word digits `abcd` and lane digits `0123`, the element that lands on
/// `0abc:123d` comes from `abcd:0123`.
pub open spec fn interleave_source(c: int) -> int {
    16 * (2 * ((c / 16) % 8) + c % 2) + 8 * (c / 128) + (c % 16) / 2
}

/// The position that an element comes from after `rounds` rounds.
pub open spec fn interleave_source_after(rounds: nat, c: int) -> int
    decreases rounds,
{
    if rounds == 0 {
        c
    } else {
        interleave_source_after((rounds - 1) as nat, interleave_source(c))
    }
}

/// Four rounds of interleaving, digit by digit.
proof fn lemma_four_rounds_digits(r: u32, l: u32)
    by (bit_vector)
    requires
        r < 16,
        l < 16,
    ensures
        ({
            let c = 16 * r + l;
            let c1 = 16 * (2 * ((c / 16) % 8) + c % 2) + 8 * (c / 128) + (c % 16) / 2;
            let c2 = 16 * (2 * ((c1 / 16) % 8) + c1 % 2) + 8 * (c1 / 128) + (c1 % 16) / 2;
            let c3 = 16 * (2 * ((c2 / 16) % 8) + c2 % 2) + 8 * (c2 / 128) + (c2 % 16) / 2;
            let c4 = 16 * (2 * ((c3 / 16) % 8) + c3 % 2) + 8 * (c3 / 128) + (c3 % 16) / 2;
            c4 == 16 * (8 * (l % 2) + 4 * ((l / 2) % 2) + 2 * ((l / 4) % 2) + (l / 8) % 2) + (8 * (r
                % 2) + 4 * ((r / 2) % 2) + 2 * ((r / 4) % 2) + (r / 8) % 2)
        }),
{
}

/// Reversing four digits, written out.
pub proof fn lemma_reversed_nibble(x: nat)
    requires
        x < 16,
    ensures
        reversed_bits(x, 4) == 8 * (x % 2) + 4 * ((x / 2) % 2) + 2 * ((x / 4) % 2) + (x / 8) % 2,
        reversed_bits(x, 4) < 16,
{
    lemma2_to64();
    let x1 = x / 2;
    let x2 = x1 / 2;
    let x3 = x2 / 2;
    assert(reversed_bits(x3 / 2, 0) == 0);
    assert(reversed_bits(x3, 1) == (x3 % 2) * pow2(0) + reversed_bits(x3 / 2, 0));
    assert(reversed_bits(x2, 2) == (x2 % 2) * pow2(1) + reversed_bits(x2 / 2, 1));
    assert(reversed_bits(x1, 3) == (x1 % 2) * pow2(2) + reversed_bits(x1 / 2, 2));
    assert(reversed_bits(x, 4) == (x % 2) * pow2(3) + reversed_bits(x / 2, 3));
}

/// Four rounds of interleaving reverse the eight digits of a position: the
/// element at word `r`, lane `l` comes from word `rev(l)`, lane `rev(r)`.
pub proof fn lemma_four_rounds(r: int, l: int)
    requires
        0 <= r < 16,
        0 <= l < 16,
    ensures
        interleave_source_after(4, 16 * r + l) == 16 * reversed_bits(l as nat, 4) + reversed_bits(
            r as nat,
            4,
        ),
{
    let c = 16 * r + l;
    lemma_four_rounds_digits(r as u32, l as u32);
    lemma_reversed_nibble(r as nat);
    lemma_reversed_nibble(l as nat);
    let c1 = interleave_source(c);
    let c2 = interleave_source(c1);
    let c3 = interleave_source(c2);
    let c4 = interleave_source(c3);
    assert(interleave_source_after(0, c4) == c4);
    assert(interleave_source_after(1, c3) == interleave_source_after(0, c4));
    assert(interleave_source_after(2, c2) == interleave_source_after(1, c3));
    assert(interleave_source_after(3, c1) == interleave_source_after(2, c2));
    assert(interleave_source_after(4, c) == interleave_source_after(3, c1));
}

/// The element of a block at position `c`, counting lane by lane through
/// the sixteen words.
pub open spec fn block_element(block: Seq<PackedM31>, c: int) -> M31 {
    block[c / 16]@[c % 16]
}

/// Bit reverses 256 M31 values, packed in 16 words of 16 elements each:
/// the element at word `r`, lane `l` of the result is the one at word
/// `rev(l)`, lane `rev(r)` of `data`, where `rev` reverses four digits.
pub fn bit_reverse16(data: [PackedBaseField; 16]) -> (res: [PackedBaseField; 16])
    ensures
        forall|r: int, l: int|
            0 <= r < 16 && 0 <= l < 16 ==> #[trigger] res@[r]@[l] == data@[reversed_bits(
                l as nat,
                4,
            ) as int]@[reversed_bits(r as nat, 4) as int],
{
    let ghost input = data@;
    let mut data: [PackedBaseField; 16] = data;
    let mut round: u32 = 0;
    // Denote the index of each element in the 16 packed M31 words as abcd:0123,
    // where abcd is the index of the packed word and 0123 is the index of the element in the word.
    // Bit reversal is achieved by applying the following permutation to the index for 4 times:
    //   abcd:0123 => 0abc:123d
    // This is how it looks like at each iteration.
    //   abcd:0123
    //   0abc:123d
    //   10ab:23dc
    //   210a:3dcb
    //   3210:dcba
    while round < 4
        invariant
            round <= 4,
            forall|c: int|
                0 <= c < 256 ==> block_element(data@, c) == block_element(
                    input,
                    #[trigger] interleave_source_after(round as nat, c),
                ),
            forall|c: int|
                0 <= c < 256 ==> 0 <= #[trigger] interleave_source_after(round as nat, c) < 256,
        decreases 4 - round,
    {
        let ghost before = data@;
        let ghost rounds_done = round as nat;
        // Apply the abcd:0123 => 0abc:123d permutation.
        // `LoLoInterleaveHiLo` interleaves the first halves of two words, so
        // that word 0001 takes its even lanes from the low half of word 0010
        // and its odd lanes from the low half of word 0011:
        //    0001:xyzw <= 001w:0xyz.
        data =
        [
            LoLoInterleaveHiLo::concat_swizzle(data[0], data[1]),
            LoLoInterleaveHiLo::concat_swizzle(data[2], data[3]),
            LoLoInterleaveHiLo::concat_swizzle(data[4], data[5]),
            LoLoInterleaveHiLo::concat_swizzle(data[6], data[7]),
            LoLoInterleaveHiLo::concat_swizzle(data[8], data[9]),
            LoLoInterleaveHiLo::concat_swizzle(data[10], data[11]),
            LoLoInterleaveHiLo::concat_swizzle(data[12], data[13]),
            LoLoInterleaveHiLo::concat_swizzle(data[14], data[15]),
            LoHiInterleaveHiHi::concat_swizzle(data[0], data[1]),
            LoHiInterleaveHiHi::concat_swizzle(data[2], data[3]),
            LoHiInterleaveHiHi::concat_swizzle(data[4], data[5]),
            LoHiInterleaveHiHi::concat_swizzle(data[6], data[7]),
            LoHiInterleaveHiHi::concat_swizzle(data[8], data[9]),
            LoHiInterleaveHiHi::concat_swizzle(data[10], data[11]),
            LoHiInterleaveHiHi::concat_swizzle(data[12], data[13]),
            LoHiInterleaveHiHi::concat_swizzle(data[14], data[15]),
        ];
        round = round + 1;
        proof {
            assert(interleaved(before, data@));
            assert forall|c: int| 0 <= c < 256 implies block_element(data@, c) == block_element(
                input,
                #[trigger] interleave_source_after(round as nat, c),
            ) && 0 <= interleave_source_after(round as nat, c) < 256 by {
                lemma_interleaved(before, data@, c);
                let s = interleave_source(c);
                assert(interleave_source_after(round as nat, c) == interleave_source_after(
                    rounds_done,
                    s,
                ));
            }
        }
    }
    proof {
        assert forall|r: int, l: int| 0 <= r < 16 && 0 <= l < 16 implies #[trigger] data@[r]@[l]
            == input[reversed_bits(l as nat, 4) as int]@[reversed_bits(r as nat, 4) as int] by {
            let c = 16 * r + l;
            lemma_four_rounds(r, l);
            lemma_reversed_nibble(r as nat);
            lemma_reversed_nibble(l as nat);
            assert(block_element(data@, c) == block_element(input, interleave_source_after(4, c)));
        }
    }
    data
}

/// What one round of interleaving does to each position of a block.
spec fn interleaved(before: Seq<PackedM31>, after: Seq<PackedM31>) -> bool {
    &&& before.len() == 16
    &&& after.len() == 16
    &&& forall|j: int, l: int|
        0 <= j < 8 && 0 <= l < 16 ==> #[trigger] after[j]@[l] == (before[2 * j]@ + before[2 * j
            + 1]@)[LoLoInterleaveHiLo::index(l)]
    &&& forall|j: int, l: int|
        0 <= j < 8 && 0 <= l < 16 ==> #[trigger] after[8 + j]@[l] == (before[2 * j]@ + before[2
            * j + 1]@)[LoHiInterleaveHiHi::index(l)]
}

/// One round of interleaving takes each element from its source.
proof fn lemma_interleaved(before: Seq<PackedM31>, after: Seq<PackedM31>, c: int)
    requires
        interleaved(before, after),
        0 <= c < 256,
    ensures
        block_element(after, c) == block_element(before, interleave_source(c)),
        0 <= interleave_source(c) < 256,
{
    let r = c / 16;
    let l = c % 16;
    let j = r % 8;
    broadcast use PackedM31::lemma_lanes;

    if r < 8 {
        assert(after[j]@[l] == (before[2 * j]@ + before[2 * j + 1]@)[LoLoInterleaveHiLo::index(l)]);
    } else {
        assert(after[8 + j]@[l] == (before[2 * j]@ + before[2 * j + 1]@)[LoHiInterleaveHiHi::index(
            l,
        )]);
    }
}

/// The block number with digit groups `w_h ‖ a ‖ w_l`: three digits, then
/// `a_bits` digits, then three digits.
pub open spec fn block_index(w_h: int, a: int, w_l: int, a_bits: nat) -> int {
    (w_h * pow2(a_bits) + a) * 8 + w_l
}

/// The position in the column of word `i` of block `j`: a block is made of
/// sixteen words that lie `stride` apart.
pub open spec fn word_at(j: int, i: int, stride: int) -> int {
    j + i * stride
}

/// The step at which the loops over `a`, then `w_l`, then `w_h` come to
/// block `m`.
pub open spec fn visit_time(m: int, a_bits: nat) -> int {
    ((m / 8) % (pow2(a_bits) as int)) * 64 + (m % 8) * 8 + (m / 8) / (pow2(a_bits) as int)
}

/// The smaller of a block number and its reversal: the block at which the
/// pair is dealt with.
pub open spec fn leader(j: int, bits: nat) -> int {
    let r = reversed_bits(j as nat, bits) as int;
    if j <= r {
        j
    } else {
        r
    }
}

/// Whether block `j` holds its final words once every step before `t` is
/// over.
pub open spec fn block_done(j: int, a_bits: nat, t: int) -> bool {
    visit_time(leader(j, a_bits + 6), a_bits) < t
}

/// What word `i` of block `j` holds after every step before `t`: its
/// bit-reversed content if the block is done, its initial content if not.
pub open spec fn block_word_ok(
    cur: Seq<PackedM31>,
    at_start: Seq<PackedM31>,
    a_bits: nat,
    t: int,
    j: int,
    i: int,
) -> bool {
    let bits = a_bits + 6;
    let stride = pow2(bits) as int;
    if block_done(j, a_bits, t) {
        forall|l: int|
            0 <= l < 16 ==> cur[word_at(j, i, stride)]@[l] == at_start[word_at(
                reversed_bits(j as nat, bits) as int,
                reversed_bits(l as nat, 4) as int,
                stride,
            )]@[reversed_bits(i as nat, 4) as int]
    } else {
        cur[word_at(j, i, stride)] == at_start[word_at(j, i, stride)]
    }
}

/// The state of the column after every step before `t`.
pub open spec fn reversed_up_to(
    cur: Seq<PackedM31>,
    at_start: Seq<PackedM31>,
    a_bits: nat,
    t: int,
) -> bool {
    let stride = pow2(a_bits + 6) as int;
    &&& cur.len() == 16 * stride
    &&& at_start.len() == 16 * stride
    &&& forall|j: int, i: int|
        0 <= j < stride && 0 <= i < 16 ==> #[trigger] block_word_ok(cur, at_start, a_bits, t, j, i)
}

/// Two words of blocks below `stride` lie at one position only if they are
/// the same word of the same block.
pub proof fn lemma_word_at_injective(j1: int, i1: int, j2: int, i2: int, stride: int)
    requires
        0 <= j1 < stride,
        0 <= j2 < stride,
        word_at(j1, i1, stride) == word_at(j2, i2, stride),
    ensures
        j1 == j2,
        i1 == i2,
{
    assert(j1 - j2 == (i2 - i1) * stride) by (nonlinear_arith)
        requires
            j1 + i1 * stride == j2 + i2 * stride,
    ;
    assert(i2 - i1 == 0) by (nonlinear_arith)
        requires
            -stride < (i2 - i1) * stride < stride,
    ;
}

/// The first word of a block lies at the block's own number.
pub proof fn lemma_first_word(j: int, stride: int)
    ensures
        word_at(j, 0, stride) == j,
{
    assert(0 * stride == 0) by (nonlinear_arith);
}

/// The words of a block lie inside the column.
pub proof fn lemma_word_at_bound(j: int, i: int, stride: int)
    requires
        0 <= j < stride,
        0 <= i < 16,
    ensures
        0 <= i * stride <= 15 * stride,
        0 <= word_at(j, i, stride) < 16 * stride,
        word_at(j, i, stride) / stride == i,
        word_at(j, i, stride) % stride == j,
{
    assert(0 <= i * stride <= 15 * stride) by (nonlinear_arith)
        requires
            0 <= i <= 15,
            0 < stride,
    ;
    assert(word_at(j, i, stride) == stride * i + j) by (nonlinear_arith);
    vstd::arithmetic::div_mod::lemma_fundamental_div_mod_converse(
        word_at(j, i, stride),
        stride,
        i,
        j,
    );
}

/// Every position of the column is one word of one block.
pub proof fn lemma_word_at_split(p: int, stride: int)
    requires
        0 <= p < 16 * stride,
        0 < stride,
    ensures
        0 <= p % stride < stride,
        0 <= p / stride < 16,
        word_at(p % stride, p / stride, stride) == p,
{
    vstd::arithmetic::div_mod::lemma_fundamental_div_mod(p, stride);
    let q = p / stride;
    assert(stride * q == q * stride) by (nonlinear_arith);
    assert(0 <= q < 16) by (nonlinear_arith)
        requires
            0 <= p < 16 * stride,
            0 < stride,
            p == q * stride + p % stride,
            0 <= p % stride < stride,
    ;
}

/// A block number built from its digit groups has those groups, is visited
/// at the step they give, and is reversed by reversing each group and
/// putting the groups in opposite order.
pub proof fn lemma_block_digits(w_h: int, a: int, w_l: int, a_bits: nat)
    requires
        0 <= w_h < 8,
        0 <= a < pow2(a_bits),
        0 <= w_l < 8,
    ensures
        0 <= block_index(w_h, a, w_l, a_bits) < pow2(a_bits + 6),
        visit_time(block_index(w_h, a, w_l, a_bits), a_bits) == a * 64 + w_l * 8 + w_h,
        reversed_bits(block_index(w_h, a, w_l, a_bits) as nat, a_bits + 6) == block_index(
            reversed_bits(w_l as nat, 3) as int,
            reversed_bits(a as nat, a_bits) as int,
            reversed_bits(w_h as nat, 3) as int,
            a_bits,
        ),
        reversed_bits(w_l as nat, 3) < 8,
        reversed_bits(w_h as nat, 3) < 8,
        reversed_bits(a as nat, a_bits) < pow2(a_bits),
{
    lemma2_to64();
    let q = pow2(a_bits) as int;
    let m = block_index(w_h, a, w_l, a_bits);
    let hi = w_h * q + a;
    lemma_pow2_adds(a_bits, 6);
    lemma_pow2_adds(a_bits, 3);
    assert(0 <= w_h * q <= 7 * q) by (nonlinear_arith)
        requires
            0 <= w_h <= 7,
            0 < q,
    ;
    assert(m / 8 == hi && m % 8 == w_l);
    assert(hi == q * w_h + a) by (nonlinear_arith)
        requires
            hi == w_h * q + a,
    ;
    vstd::arithmetic::div_mod::lemma_fundamental_div_mod_converse(hi, q, w_h, a);
    // The reversal, group by group.
    lemma_reversed_bits_bound(w_l as nat, 3);
    lemma_reversed_bits_bound(w_h as nat, 3);
    lemma_reversed_bits_bound(a as nat, a_bits);
    lemma_reversed_bits_concat(hi as nat, w_l as nat, a_bits + 3, 3);
    lemma_reversed_bits_concat(w_h as nat, a as nat, 3, a_bits);
    assert(3 + (a_bits + 3) == a_bits + 6);
    assert(hi * pow2(3) + w_l == m);
    let r_l = reversed_bits(w_l as nat, 3) as int;
    let r_a = reversed_bits(a as nat, a_bits) as int;
    let r_h = reversed_bits(w_h as nat, 3) as int;
    assert(reversed_bits(hi as nat, a_bits + 3) == r_a * 8 + r_h);
    assert(reversed_bits(m as nat, a_bits + 6) == r_l * pow2(a_bits + 3) + (r_a * 8 + r_h));
    assert(r_l * pow2(a_bits + 3) + (r_a * 8 + r_h) == (r_l * q + r_a) * 8 + r_h)
        by (nonlinear_arith)
        requires
            pow2(a_bits + 3) == q * 8,
    ;
}

/// Every block number is built from its three digit groups.
pub proof fn lemma_block_split(m: int, a_bits: nat)
    requires
        0 <= m < pow2(a_bits + 6),
    ensures
        ({
            let q = pow2(a_bits) as int;
            &&& 0 <= (m / 8) / q < 8
            &&& 0 <= (m / 8) % q < q
            &&& m == block_index((m / 8) / q, (m / 8) % q, m % 8, a_bits)
        }),
{
    lemma2_to64();
    let q = pow2(a_bits) as int;
    lemma_pow2_pos(a_bits);
    lemma_pow2_adds(a_bits, 6);
    let hi = m / 8;
    vstd::arithmetic::div_mod::lemma_fundamental_div_mod(hi, q);
    let w_h = hi / q;
    assert(q * w_h == w_h * q) by (nonlinear_arith);
    assert(0 <= w_h < 8) by (nonlinear_arith)
        requires
            0 <= hi < 8 * q,
            0 < q,
            hi == w_h * q + hi % q,
            0 <= hi % q < q,
    ;
}

/// A block whose upper group is above the reversal of its lower group is
/// above its own reversal, so no pair is dealt with at it.
pub proof fn lemma_upper_block(w_h: int, a: int, w_l: int, a_bits: nat)
    requires
        0 <= w_h < 8,
        0 <= a < pow2(a_bits),
        0 <= w_l < 8,
        reversed_bits(w_l as nat, 3) < w_h,
    ensures
        reversed_bits(block_index(w_h, a, w_l, a_bits) as nat, a_bits + 6) < block_index(
            w_h,
            a,
            w_l,
            a_bits,
        ),
{
    lemma_block_digits(w_h, a, w_l, a_bits);
    let q = pow2(a_bits) as int;
    let r_l = reversed_bits(w_l as nat, 3) as int;
    let r_a = reversed_bits(a as nat, a_bits) as int;
    let r_h = reversed_bits(w_h as nat, 3) as int;
    assert((r_l * q + r_a) * 8 + r_h < (w_h * q + a) * 8 + w_l) by (nonlinear_arith)
        requires
            r_l + 1 <= w_h,
            0 <= r_a < q,
            0 <= a,
            0 <= r_h < 8,
            0 <= w_l,
    ;
}

/// The leader of a block is at or below its own reversal, and within the
/// column's blocks.
pub proof fn lemma_leader(j: int, bits: nat)
    requires
        0 <= j < pow2(bits),
    ensures
        0 <= leader(j, bits) < pow2(bits),
        leader(j, bits) <= reversed_bits(leader(j, bits) as nat, bits),
        leader(j, bits) == j || leader(j, bits) == reversed_bits(j as nat, bits),
        leader(j, bits) == j || j == reversed_bits(leader(j, bits) as nat, bits),
{
    lemma_reversed_bits_bound(j as nat, bits);
    lemma_reversed_bits_involution(j as nat, bits);
}

/// Steps at which no pair is dealt with leave the state as it is.
pub proof fn lemma_advance(
    cur: Seq<PackedM31>,
    at_start: Seq<PackedM31>,
    a_bits: nat,
    t1: int,
    t2: int,
)
    requires
        reversed_up_to(cur, at_start, a_bits, t1),
        t1 <= t2,
        forall|m: int|
            0 <= m < pow2(a_bits + 6) && t1 <= #[trigger] visit_time(m, a_bits) < t2
                ==> reversed_bits(m as nat, a_bits + 6) < m,
    ensures
        reversed_up_to(cur, at_start, a_bits, t2),
{
    let bits = a_bits + 6;
    let stride = pow2(bits) as int;
    assert forall|j: int, i: int| 0 <= j < stride && 0 <= i < 16 implies #[trigger] block_word_ok(
        cur,
        at_start,
        a_bits,
        t2,
        j,
        i,
    ) by {
        assert(block_word_ok(cur, at_start, a_bits, t1, j, i));
        lemma_leader(j, bits);
        let m = leader(j, bits);
        assert(block_done(j, a_bits, t1) == block_done(j, a_bits, t2)) by {
            let t = visit_time(m, a_bits);
            if t1 <= t < t2 {
                assert(reversed_bits(m as nat, bits) < m);
            }
        }
    }
}

/// Element `l` of word `i` of block `dst` in `next` is the element that the
/// bit-reversal of a block takes from block `src` of `cur`.
pub open spec fn word_reversed_from(
    next: Seq<PackedM31>,
    dst: int,
    cur: Seq<PackedM31>,
    src: int,
    stride: int,
    i: int,
    l: int,
) -> bool {
    next[word_at(dst, i, stride)]@[l] == cur[word_at(
        src,
        reversed_bits(l as nat, 4) as int,
        stride,
    )]@[reversed_bits(i as nat, 4) as int]
}

/// Block `dst` of `next` is block `src` of `cur`, bit-reversed as a block.
pub open spec fn block_reversed_from(
    next: Seq<PackedM31>,
    dst: int,
    cur: Seq<PackedM31>,
    src: int,
    stride: int,
) -> bool {
    forall|i: int, l: int|
        0 <= i < 16 && 0 <= l < 16 ==> #[trigger] word_reversed_from(next, dst, cur, src, stride, i, l)
}

/// Every block of `next` but `first` and `second` is as in `cur`.
pub open spec fn other_blocks_kept(
    next: Seq<PackedM31>,
    cur: Seq<PackedM31>,
    first: int,
    second: int,
    stride: int,
) -> bool {
    forall|j: int, i: int|
        0 <= j < stride && 0 <= i < 16 && j != first && j != second ==> #[trigger] next[word_at(
            j,
            i,
            stride,
        )] == cur[word_at(j, i, stride)]
}

/// A block that was loaded, bit-reversed and stored is the bit-reversal of
/// the block it was loaded from.
proof fn lemma_block_written(
    next: Seq<PackedM31>,
    dst: int,
    values: Seq<PackedM31>,
    chunk: Seq<PackedM31>,
    cur: Seq<PackedM31>,
    src: int,
    stride: int,
)
    requires
        forall|i: int| 0 <= i < 16 ==> next[word_at(dst, i, stride)] == values[i],
        forall|i: int| 0 <= i < 16 ==> chunk[i] == cur[word_at(src, i, stride)],
        forall|r: int, l: int|
            0 <= r < 16 && 0 <= l < 16 ==> #[trigger] values[r]@[l] == chunk[reversed_bits(
                l as nat,
                4,
            ) as int]@[reversed_bits(r as nat, 4) as int],
    ensures
        block_reversed_from(next, dst, cur, src, stride),
{
    assert forall|i: int, l: int| 0 <= i < 16 && 0 <= l < 16 implies #[trigger] word_reversed_from(
        next,
        dst,
        cur,
        src,
        stride,
        i,
        l,
    ) by {
        lemma_reversed_nibble(l as nat);
        lemma_reversed_nibble(i as nat);
        assert(next[word_at(dst, i, stride)] == values[i]);
        assert(values[i]@[l] == chunk[reversed_bits(l as nat, 4) as int]@[reversed_bits(
            i as nat,
            4,
        ) as int]);
    }
}

/// The step that deals with the pair of block `idx` and its reversal:
/// each of the two takes the other's words, bit-reversed as a block.
pub proof fn lemma_step(
    cur: Seq<PackedM31>,
    next: Seq<PackedM31>,
    at_start: Seq<PackedM31>,
    a_bits: nat,
    t: int,
    idx: int,
)
    requires
        reversed_up_to(cur, at_start, a_bits, t),
        0 <= idx < pow2(a_bits + 6),
        visit_time(idx, a_bits) == t,
        idx <= reversed_bits(idx as nat, a_bits + 6),
        next.len() == cur.len(),
        forall|m: int|
            0 <= m < pow2(a_bits + 6) && #[trigger] visit_time(m, a_bits) == t ==> m == idx,
        block_reversed_from(
            next,
            idx,
            cur,
            reversed_bits(idx as nat, a_bits + 6) as int,
            pow2(a_bits + 6) as int,
        ),
        block_reversed_from(
            next,
            reversed_bits(idx as nat, a_bits + 6) as int,
            cur,
            idx,
            pow2(a_bits + 6) as int,
        ),
        other_blocks_kept(
            next,
            cur,
            idx,
            reversed_bits(idx as nat, a_bits + 6) as int,
            pow2(a_bits + 6) as int,
        ),
    ensures
        reversed_up_to(next, at_start, a_bits, t + 1),
{
    let bits = a_bits + 6;
    let stride = pow2(bits) as int;
    let rev = reversed_bits(idx as nat, bits) as int;
    lemma_reversed_bits_bound(idx as nat, bits);
    lemma_reversed_bits_involution(idx as nat, bits);
    assert(leader(idx, bits) == idx);
    assert(leader(rev, bits) == idx);
    assert forall|j: int, i: int| 0 <= j < stride && 0 <= i < 16 implies #[trigger] block_word_ok(
        next,
        at_start,
        a_bits,
        t + 1,
        j,
        i,
    ) by {
        assert(block_word_ok(cur, at_start, a_bits, t, j, i));
        lemma_leader(j, bits);
        if j == idx || j == rev {
            let other = if j == idx {
                rev
            } else {
                idx
            };
            assert(other == reversed_bits(j as nat, bits));
            assert(block_done(j, a_bits, t + 1));
            assert(!block_done(other, a_bits, t));
            assert forall|l: int| 0 <= l < 16 implies next[word_at(j, i, stride)]@[l] == at_start[word_at(
                other,
                reversed_bits(l as nat, 4) as int,
                stride,
            )]@[reversed_bits(i as nat, 4) as int] by {
                let rl = reversed_bits(l as nat, 4) as int;
                lemma_reversed_nibble(l as nat);
                lemma_reversed_nibble(i as nat);
                assert(block_word_ok(cur, at_start, a_bits, t, other, rl));
                assert(word_reversed_from(next, j, cur, other, stride, i, l));
            }
        } else {
            assert(next[word_at(j, i, stride)] == cur[word_at(j, i, stride)]);
            let m = leader(j, bits);
            assert(m != idx);
            assert(visit_time(m, a_bits) != t);
            assert(block_done(j, a_bits, t) == block_done(j, a_bits, t + 1));
        }
    }
}

/// Once every step is over, the column holds the bit-reversal of its
/// initial elements.
pub proof fn lemma_all_done(cur: Seq<PackedM31>, at_start: Seq<PackedM31>, a_bits: nat)
    requires
        reversed_up_to(cur, at_start, a_bits, 64 * (pow2(a_bits) as int)),
    ensures
        unpacked(cur) == bit_reversed(unpacked(at_start)),
{
    let bits = a_bits + 6;
    let stride = pow2(bits) as int;
    let total = a_bits + 14;
    lemma2_to64();
    lemma_pow2_pos(bits);
    lemma_pow2_pos(a_bits);
    lemma_pow2_adds(bits, 4);
    lemma_pow2_adds(bits, 8);
    lemma_pow2_adds(4, bits);
    assert(bits + 8 == total);
    assert(unpacked(at_start).len() == pow2(total));
    lemma_log2_of_pow2(total);
    let target = bit_reversed(unpacked(at_start));
    assert forall|e: int| 0 <= e < unpacked(cur).len() implies unpacked(cur)[e] == target[e] by {
        let p = e / 16;
        let l = e % 16;
        lemma_word_at_split(p, stride);
        let j = p % stride;
        let i = p / stride;
        assert(block_word_ok(cur, at_start, a_bits, 64 * (pow2(a_bits) as int), j, i));
        lemma_leader(j, bits);
        let m = leader(j, bits);
        lemma_block_split(m, a_bits);
        let q = pow2(a_bits) as int;
        lemma_block_digits((m / 8) / q, (m / 8) % q, m % 8, a_bits);
        assert(block_done(j, a_bits, 64 * (pow2(a_bits) as int)));
        let rj = reversed_bits(j as nat, bits) as int;
        let rl = reversed_bits(l as nat, 4) as int;
        let ri = reversed_bits(i as nat, 4) as int;
        lemma_reversed_nibble(l as nat);
        lemma_reversed_nibble(i as nat);
        lemma_reversed_bits_bound(j as nat, bits);
        assert(cur[p]@[l] == at_start[word_at(rj, rl, stride)]@[ri]);
        // The reversal of the whole element index, group by group.
        lemma_reversed_bits_concat(p as nat, l as nat, bits + 4, 4);
        lemma_reversed_bits_concat(i as nat, j as nat, 4, bits);
        assert(i * pow2(bits) + j == p);
        assert(p * pow2(4) + l == e);
        assert(4 + (bits + 4) == total);
        let re = reversed_bits(e as nat, total) as int;
        assert(re == rl * pow2(bits + 4) + (rj * 16 + ri));
        assert(rl * pow2(bits + 4) + (rj * 16 + ri) == 16 * word_at(rj, rl, stride) + ri)
            by (nonlinear_arith)
            requires
                pow2(bits + 4) == stride * 16,
        ;
        lemma_word_at_bound(rj, rl, stride);
        assert(re / 16 == word_at(rj, rl, stride) && re % 16 == ri);
        assert(target[e] == unpacked(at_start)[re]);
    }
    assert(unpacked(cur) =~= target);
}

/// The sixteen words of the block that starts at `start`.
fn load_block(data: &[PackedBaseField], start: usize, stride: usize) -> (chunk: [PackedBaseField;
    16])
    requires
        start < stride,
        data@.len() == 16 * stride,
    ensures
        forall|i: int| 0 <= i < 16 ==> chunk@[i] == data@[word_at(start as int, i, stride as int)],
{
    proof {
        lemma_word_at_bound(start as int, 0, stride as int);
        lemma_first_word(start as int, stride as int);
    }
    let len: usize = data.len();
    let mut chunk: [PackedBaseField; 16] = [data[start];16];
    let mut i: usize = 1;
    while i < 16
        invariant
            1 <= i <= 16,
            start < stride,
            data@.len() == 16 * stride,
            len == 16 * stride,
            forall|k: int|
                0 <= k < i ==> chunk@[k] == data@[word_at(start as int, k, stride as int)],
        decreases 16 - i,
    {
        proof {
            lemma_word_at_bound(start as int, i as int, stride as int);
        }
        chunk[i] = data[start + i * stride];
        i = i + 1;
    }
    chunk
}

/// Writes `values` over the sixteen words of the block that starts at
/// `start` and leaves every other block as it is.
fn store_block(
    data: &mut [PackedBaseField],
    start: usize,
    stride: usize,
    values: &[PackedBaseField; 16],
)
    requires
        start < stride,
        old(data)@.len() == 16 * stride,
    ensures
        final(data)@.len() == old(data)@.len(),
        forall|i: int|
            0 <= i < 16 ==> final(data)@[word_at(start as int, i, stride as int)] == values@[i],
        forall|j: int, i: int|
            0 <= j < stride && 0 <= i < 16 && j != start ==> #[trigger] final(data)@[word_at(
                j,
                i,
                stride as int,
            )] == old(data)@[word_at(j, i, stride as int)],
{
    let len: usize = data.len();
    let mut i: usize = 0;
    while i < 16
        invariant
            i <= 16,
            start < stride,
            data@.len() == 16 * stride,
            len == 16 * stride,
            old(data)@.len() == 16 * stride,
            forall|k: int|
                0 <= k < i ==> data@[word_at(start as int, k, stride as int)] == values@[k],
            forall|j: int, k: int|
                0 <= j < stride && 0 <= k < 16 && j != start ==> #[trigger] data@[word_at(
                    j,
                    k,
                    stride as int,
                )] == old(data)@[word_at(j, k, stride as int)],
        decreases 16 - i,
    {
        let ghost before = data@;
        proof {
            lemma_word_at_bound(start as int, i as int, stride as int);
        }
        data[start + i * stride] = values[i];
        proof {
            assert forall|k: int| 0 <= k < i + 1 implies data@[word_at(
                start as int,
                k,
                stride as int,
            )] == values@[k] by {
                lemma_word_at_bound(start as int, k, stride as int);
                if word_at(start as int, k, stride as int) == word_at(
                    start as int,
                    i as int,
                    stride as int,
                ) {
                    lemma_word_at_injective(start as int, k, start as int, i as int, stride as int);
                }
            }
            assert forall|j: int, k: int|
                0 <= j < stride && 0 <= k < 16 && j != start implies #[trigger] data@[word_at(
                j,
                k,
                stride as int,
            )] == old(data)@[word_at(j, k, stride as int)] by {
                lemma_word_at_bound(j, k, stride as int);
                if word_at(j, k, stride as int) == word_at(start as int, i as int, stride as int) {
                    lemma_word_at_injective(j, k, start as int, i as int, stride as int);
                }
                assert(before[word_at(j, k, stride as int)] == old(data)@[word_at(
                    j,
                    k,
                    stride as int,
                )]);
            }
        }
        i = i + 1;
    }
}

/// The step at which the loops come to a block tells the block.
pub proof fn lemma_visit_time_unique(m: int, w_h: int, a: int, w_l: int, a_bits: nat)
    requires
        0 <= m < pow2(a_bits + 6),
        0 <= w_h <= 8,
        0 <= a < pow2(a_bits),
        0 <= w_l < 8,
    ensures
        w_h < 8 && visit_time(m, a_bits) == a * 64 + w_l * 8 + w_h ==> m == block_index(
            w_h,
            a,
            w_l,
            a_bits,
        ),
        a * 64 + w_l * 8 + w_h <= visit_time(m, a_bits) < a * 64 + (w_l + 1) * 8 ==> (m / 8) % (
        pow2(a_bits) as int) == a && m % 8 == w_l && w_h <= (m / 8) / (pow2(a_bits) as int) < 8,
{
    let q = pow2(a_bits) as int;
    lemma_block_split(m, a_bits);
    lemma_block_digits((m / 8) / q, (m / 8) % q, m % 8, a_bits);
}

/// A step at a block that lies above its own reversal changes nothing.
pub proof fn lemma_skip(
    cur: Seq<PackedM31>,
    at_start: Seq<PackedM31>,
    a_bits: nat,
    w_h: int,
    a: int,
    w_l: int,
)
    requires
        0 <= w_h < 8,
        0 <= a < pow2(a_bits),
        0 <= w_l < 8,
        reversed_up_to(cur, at_start, a_bits, a * 64 + w_l * 8 + w_h),
        reversed_bits(block_index(w_h, a, w_l, a_bits) as nat, a_bits + 6) < block_index(
            w_h,
            a,
            w_l,
            a_bits,
        ),
    ensures
        reversed_up_to(cur, at_start, a_bits, a * 64 + w_l * 8 + w_h + 1),
{
    let t = a * 64 + w_l * 8 + w_h;
    assert forall|m: int|
        0 <= m < pow2(a_bits + 6) && t <= #[trigger] visit_time(m, a_bits) < t
            + 1 implies reversed_bits(m as nat, a_bits + 6) < m by {
        lemma_visit_time_unique(m, w_h, a, w_l, a_bits);
    }
    lemma_advance(cur, at_start, a_bits, t, t + 1);
}

/// The steps that the loop over `w_h` leaves out, those above the reversal
/// of `w_l`, change nothing.
pub proof fn lemma_gap(
    cur: Seq<PackedM31>,
    at_start: Seq<PackedM31>,
    a_bits: nat,
    w_h: int,
    a: int,
    w_l: int,
)
    requires
        reversed_bits(w_l as nat, 3) < w_h <= 8,
        0 <= a < pow2(a_bits),
        0 <= w_l < 8,
        reversed_up_to(cur, at_start, a_bits, a * 64 + w_l * 8 + w_h),
    ensures
        reversed_up_to(cur, at_start, a_bits, a * 64 + (w_l + 1) * 8),
{
    let t1 = a * 64 + w_l * 8 + w_h;
    let t2 = a * 64 + (w_l + 1) * 8;
    let q = pow2(a_bits) as int;
    assert forall|m: int|
        0 <= m < pow2(a_bits + 6) && t1 <= #[trigger] visit_time(m, a_bits)
            < t2 implies reversed_bits(m as nat, a_bits + 6) < m by {
        lemma_visit_time_unique(m, w_h, a, w_l, a_bits);
        lemma_block_split(m, a_bits);
        lemma_upper_block((m / 8) / q, (m / 8) % q, m % 8, a_bits);
    }
    lemma_advance(cur, at_start, a_bits, t1, t2);
}

/// Bit reverses packed M31 values.
///
/// Given a column `A` of `2^n` elements in packed words, leaves in it the
/// column `B` with `B[i] = A[bit_reverse(i)]`, where `bit_reverse` reverses
/// the `n` binary digits of an element's index. The column must hold a
/// power of two of words, at least `2^MIN_LOG_SIZE`.
pub fn bit_reverse_m31(data: &mut [PackedBaseField])
    requires
        is_power_of_two(old(data)@.len()),
        log2_floor_spec(old(data)@.len()) >= MIN_LOG_SIZE,
    ensures
        final(data)@.len() == old(data)@.len(),
        unpacked(final(data)@) == bit_reversed(unpacked(old(data)@)),
{
    // Indices in the array are of the form v_h w_h a w_l v_l, with
    // |v_h| = |v_l| = VEC_BITS, |w_h| = |w_l| = W_BITS, |a| = n - 2*W_BITS - VEC_BITS.
    // The loops go over a, w_l, w_h, and then swaps the 16 by 16 values at:
    //   * w_h a w_l *   <->   * rev(w_h a w_l) *.
    // These are 1 or 2 chunks of 2^W_BITS contiguous packed words.
    let len: usize = data.len();
    proof {
        lemma_pow2_pos(log2_floor_spec(len as nat));
    }
    let log_size: u32 = log2_floor(len) as u32;
    let a_bits: u32 = log_size - 2 * W_BITS - VEC_BITS;
    let ghost at_start = data@;
    let ghost ab = a_bits as nat;
    proof {
        lemma2_to64();
        lemma_pow2_adds(ab, 6);
        lemma_pow2_adds(ab, 10);
        lemma_pow2_pos(ab);
        assert(log_size == ab + 10);
    }
    let n_a: usize = pow2_usize(a_bits as usize);
    let stride: usize = pow2_usize((2 * W_BITS + a_bits) as usize);
    proof {
        assert forall|j: int, i: int| 0 <= j < stride && 0 <= i < 16 implies #[trigger] block_word_ok(
            data@,
            at_start,
            ab,
            0,
            j,
            i,
        ) by {
            lemma_leader(j, ab + 6);
            let m = leader(j, ab + 6);
            lemma_block_split(m, ab);
            lemma_block_digits((m / 8) / (n_a as int), (m / 8) % (n_a as int), m % 8, ab);
        }
    }
    let mut a: usize = 0;
    while a < n_a
        invariant
            a <= n_a,
            n_a == pow2(ab),
            stride == pow2(ab + 6),
            stride == 64 * n_a,
            len == 16 * stride,
            a_bits == ab,
            log_size == ab + 10,
            data@.len() == len,
            reversed_up_to(data@, at_start, ab, a * 64),
        decreases n_a - a,
    {
        let mut w_l: usize = 0;
        while w_l < 8
            invariant
                a < n_a,
                w_l <= 8,
                n_a == pow2(ab),
                stride == pow2(ab + 6),
                stride == 64 * n_a,
                len == 16 * stride,
                a_bits == ab,
                log_size == ab + 10,
                data@.len() == len,
                reversed_up_to(data@, at_start, ab, a * 64 + w_l * 8),
            decreases 8 - w_l,
        {
            proof {
                lemma2_to64();
            }
            let w_l_rev: usize = bit_reverse_index(w_l, W_BITS);
            let mut w_h: usize = 0;
            while w_h < w_l_rev + 1
                invariant
                    a < n_a,
                    w_l < 8,
                    w_h <= w_l_rev + 1,
                    w_l_rev == reversed_bits(w_l as nat, 3),
                    w_l_rev < 8,
                    n_a == pow2(ab),
                    stride == pow2(ab + 6),
                    stride == 64 * n_a,
                    len == 16 * stride,
                    a_bits == ab,
                    log_size == ab + 10,
                    data@.len() == len,
                    reversed_up_to(data@, at_start, ab, a * 64 + w_l * 8 + w_h),
                decreases w_l_rev + 1 - w_h,
            {
                proof {
                    lemma_block_digits(w_h as int, a as int, w_l as int, ab);
                    assert(0 <= w_h * n_a <= 7 * n_a) by (nonlinear_arith)
                        requires
                            0 <= w_h <= 7,
                            0 < n_a,
                    ;
                }
                let idx: usize = (w_h * n_a + a) * 8 + w_l;
                let idx_rev: usize = bit_reverse_index(idx, log_size - VEC_BITS);
                let ghost t = a * 64 + w_l * 8 + w_h;
                let ghost before = data@;
                // In order to not swap twice, only swap if idx <= idx_rev.
                if idx <= idx_rev {
                    // Read first chunk.
                    let chunk0: [PackedBaseField; 16] = load_block(data, idx, stride);
                    let values0: [PackedBaseField; 16] = bit_reverse16(chunk0);
                    proof {
                        assert forall|m: int|
                            0 <= m < pow2(ab + 6) && #[trigger] visit_time(m, ab) == t implies m
                            == idx by {
                            lemma_visit_time_unique(m, w_h as int, a as int, w_l as int, ab);
                        }
                    }
                    if idx == idx_rev {
                        // Palindrome index. Write into the same chunk.
                        store_block(data, idx, stride, &values0);
                        proof {
                            lemma_block_written(
                                data@,
                                idx as int,
                                values0@,
                                chunk0@,
                                before,
                                idx as int,
                                stride as int,
                            );
                            lemma_step(before, data@, at_start, ab, t, idx as int);
                        }
                    } else {
                        // Read bit reversed chunk.
                        let chunk1: [PackedBaseField; 16] = load_block(data, idx_rev, stride);
                        let values1: [PackedBaseField; 16] = bit_reverse16(chunk1);
                        store_block(data, idx, stride, &values1);
                        let ghost between = data@;
                        store_block(data, idx_rev, stride, &values0);
                        proof {
                            assert forall|i: int| 0 <= i < 16 implies data@[word_at(
                                idx as int,
                                i,
                                stride as int,
                            )] == values1@[i] by {
                                assert(between[word_at(idx as int, i, stride as int)] == values1@[i]);
                            }
                            lemma_block_written(
                                data@,
                                idx as int,
                                values1@,
                                chunk1@,
                                before,
                                idx_rev as int,
                                stride as int,
                            );
                            lemma_block_written(
                                data@,
                                idx_rev as int,
                                values0@,
                                chunk0@,
                                before,
                                idx as int,
                                stride as int,
                            );
                            assert forall|j: int, i: int|
                                0 <= j < stride && 0 <= i < 16 && j != idx && j
                                    != idx_rev implies #[trigger] data@[word_at(j, i, stride as int)]
                                == before[word_at(j, i, stride as int)] by {
                                assert(between[word_at(j, i, stride as int)] == before[word_at(
                                    j,
                                    i,
                                    stride as int,
                                )]);
                            }
                            lemma_step(before, data@, at_start, ab, t, idx as int);
                        }
                    }
                } else {
                    proof {
                        lemma_skip(data@, at_start, ab, w_h as int, a as int, w_l as int);
                    }
                }
                w_h = w_h + 1;
            }
            proof {
                lemma_gap(data@, at_start, ab, w_h as int, a as int, w_l as int);
            }
            w_l = w_l + 1;
        }
        a = a + 1;
    }
    proof {
        lemma_all_done(data@, at_start, ab);
    }
}

/// Bit-reversing a column twice gives the column back: a column
/// whose elements are the bit-reversal of the elements of a second column,
/// which in turn holds the bit-reversal of a third, is that third column.
pub proof fn lemma_bit_reverse_m31_involution(
    initial: Seq<PackedM31>,
    reversed: Seq<PackedM31>,
    restored: Seq<PackedM31>,
)
    requires
        is_power_of_two(initial.len()),
        reversed.len() == initial.len(),
        restored.len() == initial.len(),
        unpacked(reversed) == bit_reversed(unpacked(initial)),
        unpacked(restored) == bit_reversed(unpacked(reversed)),
    ensures
        restored == initial,
{
    let k = log2_floor_spec(initial.len());
    lemma2_to64();
    lemma_pow2_adds(k, 4);
    lemma_log2_of_pow2(k + 4);
    assert(unpacked(initial).len() == pow2(k + 4));
    crate::utils::lemma_bit_reversed_with_involution(unpacked(initial), k + 4);
    crate::backend::simd::m31::lemma_unpacked_injective(restored, initial);
}

} // verus!
