//! A word of sixteen base-field elements that are worked on together.

use crate::fields::m31::{add_mod, mul_mod, M31};
use vstd::prelude::*;

verus! {

pub const LOG_N_LANES: u32 = 4;

pub const N_LANES: usize = 16;

/// Sixteen base-field elements, one to a lane.
#[derive(Clone, Copy, Debug)]
pub struct PackedM31 {
    lanes: [M31; N_LANES],
}

pub type PackedBaseField = PackedM31;

impl View for PackedM31 {
    type V = Seq<M31>;

    /// The sixteen elements, by lane.
    closed spec fn view(&self) -> Seq<M31> {
        self.lanes@
    }
}

/// The elements of a column of packed words, lane by lane.
pub open spec fn unpacked(data: Seq<PackedM31>) -> Seq<M31> {
    Seq::new(data.len() * 16, |e: int| data[e / 16]@[e % 16])
}

/// Columns of as many words that hold the same elements are the same.
pub proof fn lemma_unpacked_injective(a: Seq<PackedM31>, b: Seq<PackedM31>)
    requires
        a.len() == b.len(),
        unpacked(a) == unpacked(b),
    ensures
        a == b,
{
    assert forall|p: int| 0 <= p < a.len() implies a[p] == b[p] by {
        assert forall|l: int| 0 <= l < 16 implies a[p]@[l] == b[p]@[l] by {
            let e = 16 * p + l;
            assert(unpacked(a)[e] == a[e / 16]@[e % 16]);
            assert(unpacked(b)[e] == b[e / 16]@[e % 16]);
        }
        a[p].lemma_lanes();
        b[p].lemma_lanes();
        assert(a[p]@ =~= b[p]@);
        PackedM31::lemma_same_lanes(a[p], b[p]);
    }
    assert(a =~= b);
}

impl PackedM31 {
    /// Words that hold the same elements are the same.
    pub proof fn lemma_same_lanes(a: Self, b: Self)
        requires
            a@ == b@,
        ensures
            a == b,
    {
        assert(a.lanes =~= b.lanes);
    }

    /// A packed word always holds sixteen lanes.
    pub broadcast proof fn lemma_lanes(self)
        ensures
            #[trigger] self@.len() == N_LANES,
    {
    }

    /// The word that holds `value` in every lane.
    pub fn broadcast(value: M31) -> (r: Self)
        ensures
            forall|l: int| 0 <= l < N_LANES ==> r@[l] == value,
    {
        PackedM31 { lanes: [value; N_LANES] }
    }

    /// The word whose lanes are the elements of `lanes`, in order.
    pub fn from_array(lanes: [M31; N_LANES]) -> (r: Self)
        ensures
            r@ == lanes@,
    {
        PackedM31 { lanes }
    }

    /// The word that takes each lane from one of the thirty-two lanes of
    /// `self` followed by `other`: lane `l` of the result is lane `index[l]`
    /// of that concatenation.
    pub fn concat_swizzle(self, other: Self, index: &[usize; N_LANES]) -> (r: Self)
        requires
            forall|l: int| 0 <= l < N_LANES ==> index@[l] < 2 * N_LANES,
        ensures
            forall|l: int| 0 <= l < N_LANES ==> r@[l] == (self@ + other@)[index@[l] as int],
    {
        let mut out: [M31; N_LANES] = self.lanes;
        let mut l: usize = 0;
        while l < N_LANES
            invariant
                l <= N_LANES,
                forall|k: int| 0 <= k < N_LANES ==> index@[k] < 2 * N_LANES,
                forall|k: int| 0 <= k < l ==> out@[k] == (self@ + other@)[index@[k] as int],
            decreases N_LANES - l,
        {
            let source: usize = index[l];
            if source < N_LANES {
                out[l] = self.lanes[source];
            } else {
                out[l] = other.lanes[source - N_LANES];
            }
            l = l + 1;
        }
        PackedM31 { lanes: out }
    }

    /// The sum, lane by lane.
    pub fn add(self, rhs: Self) -> (r: Self)
        ensures
            forall|l: int| 0 <= l < N_LANES ==> r@[l]@ == add_mod(self@[l]@, rhs@[l]@),
    {
        let mut out: [M31; N_LANES] = self.lanes;
        let mut l: usize = 0;
        while l < N_LANES
            invariant
                l <= N_LANES,
                forall|k: int|
                    0 <= k < l ==> out@[k]@ == add_mod(self.lanes@[k]@, rhs.lanes@[k]@),
            decreases N_LANES - l,
        {
            out[l] = self.lanes[l].add(rhs.lanes[l]);
            l = l + 1;
        }
        PackedM31 { lanes: out }
    }

    /// The product, lane by lane.
    pub fn mul(self, rhs: Self) -> (r: Self)
        ensures
            forall|l: int| 0 <= l < N_LANES ==> r@[l]@ == mul_mod(self@[l]@, rhs@[l]@),
    {
        let mut out: [M31; N_LANES] = self.lanes;
        let mut l: usize = 0;
        while l < N_LANES
            invariant
                l <= N_LANES,
                forall|k: int|
                    0 <= k < l ==> out@[k]@ == mul_mod(self.lanes@[k]@, rhs.lanes@[k]@),
            decreases N_LANES - l,
        {
            out[l] = self.lanes[l].mul(rhs.lanes[l]);
            l = l + 1;
        }
        PackedM31 { lanes: out }
    }

    /// The elements of the word, by lane.
    pub fn to_array(self) -> (r: [M31; N_LANES])
        ensures
            r@ == self@,
    {
        self.lanes
    }
}

} // verus!
