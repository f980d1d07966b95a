//! The two lane permutations that the bit-reversal of a block is built
//! from.

use crate::backend::simd::m31::{PackedM31, N_LANES};
use vstd::prelude::*;

verus! {

/// Interleaves the lower halves of two words: the result holds lanes
/// `0..8` of the first word at its even lanes and lanes `0..8` of the second
/// at its odd lanes.
pub struct LoLoInterleaveHiLo;

/// Interleaves the upper halves of two words: the result holds lanes
/// `8..16` of the first word at its even lanes and lanes `8..16` of the
/// second at its odd lanes.
pub struct LoHiInterleaveHiHi;

impl LoLoInterleaveHiLo {
    /// The lane of the two concatenated words that lane `l` is taken from.
    pub open spec fn index(l: int) -> int {
        l / 2 + (l % 2) * 16
    }

    pub fn concat_swizzle(a: PackedM31, b: PackedM31) -> (r: PackedM31)
        ensures
            forall|l: int| 0 <= l < N_LANES ==> r@[l] == (a@ + b@)[Self::index(l)],
    {
        let index: [usize; N_LANES] = [0, 16, 1, 17, 2, 18, 3, 19, 4, 20, 5, 21, 6, 22, 7, 23];
        assert forall|l: int| 0 <= l < N_LANES implies index@[l] == Self::index(l) by {
            lemma_below_sixteen(l);
        }
        a.concat_swizzle(b, &index)
    }
}

impl LoHiInterleaveHiHi {
    /// The lane of the two concatenated words that lane `l` is taken from.
    pub open spec fn index(l: int) -> int {
        8 + l / 2 + (l % 2) * 16
    }

    pub fn concat_swizzle(a: PackedM31, b: PackedM31) -> (r: PackedM31)
        ensures
            forall|l: int| 0 <= l < N_LANES ==> r@[l] == (a@ + b@)[Self::index(l)],
    {
        let index: [usize; N_LANES] = [
            8,
            24,
            9,
            25,
            10,
            26,
            11,
            27,
            12,
            28,
            13,
            29,
            14,
            30,
            15,
            31,
        ];
        assert forall|l: int| 0 <= l < N_LANES implies index@[l] == Self::index(l) by {
            lemma_below_sixteen(l);
        }
        a.concat_swizzle(b, &index)
    }
}

/// A lane number is one of sixteen values.
pub proof fn lemma_below_sixteen(l: int)
    requires
        0 <= l < 16,
    ensures
        l == 0 || l == 1 || l == 2 || l == 3 || l == 4 || l == 5 || l == 6 || l == 7 || l == 8 || l
            == 9 || l == 10 || l == 11 || l == 12 || l == 13 || l == 14 || l == 15,
{
}

} // verus!
