//! A word of sixteen secure-field elements that are worked on together.

use crate::backend::simd::m31::N_LANES;
use crate::fields::qm31::{qm31_add, qm31_mul, quartic_zero, Quartic, QM31};
use vstd::prelude::*;

verus! {

/// Sixteen secure-field elements, one to a lane.
#[derive(Clone, Copy, Debug)]
pub struct PackedQM31 {
    lanes: [QM31; N_LANES],
}

pub type PackedSecureField = PackedQM31;

impl View for PackedQM31 {
    type V = Seq<Quartic>;

    /// The sixteen elements, by lane.
    closed spec fn view(&self) -> Seq<Quartic> {
        Seq::new(N_LANES as nat, |l: int| self.lanes@[l]@)
    }
}

/// The elements of a column of packed words, word by word.
pub open spec fn packed_rows(col: Seq<PackedQM31>) -> Seq<Seq<Quartic>> {
    Seq::new(col.len(), |i: int| col[i]@)
}

/// A column of `n` words with zero in every lane.
pub open spec fn zero_rows(n: nat) -> Seq<Seq<Quartic>> {
    Seq::new(n, |i: int| Seq::new(N_LANES as nat, |l: int| quartic_zero()))
}

impl PackedQM31 {
    /// A packed word always holds sixteen lanes.
    pub broadcast proof fn lemma_lanes(self)
        ensures
            #[trigger] self@.len() == N_LANES,
    {
    }

    /// The word that holds `value` in every lane.
    pub fn broadcast(value: QM31) -> (r: Self)
        ensures
            forall|l: int| 0 <= l < N_LANES ==> r@[l] == value@,
    {
        PackedQM31 { lanes: [value; N_LANES] }
    }

    /// The word that holds zero in every lane.
    pub fn zero() -> (r: Self)
        ensures
            r@ == Seq::new(N_LANES as nat, |l: int| quartic_zero()),
    {
        let r = Self::broadcast(QM31::zero());
        assert(r@ =~= Seq::new(N_LANES as nat, |l: int| quartic_zero()));
        r
    }

    /// The word whose lanes are the elements of `lanes`, in order.
    pub fn from_array(lanes: [QM31; N_LANES]) -> (r: Self)
        ensures
            forall|l: int| 0 <= l < N_LANES ==> r@[l] == lanes@[l]@,
    {
        PackedQM31 { lanes }
    }

    /// The elements of the word, by lane.
    pub fn to_array(self) -> (r: [QM31; N_LANES])
        ensures
            forall|l: int| 0 <= l < N_LANES ==> r@[l]@ == self@[l],
    {
        self.lanes
    }

    /// The sum, lane by lane.
    pub fn add(self, rhs: Self) -> (r: Self)
        ensures
            forall|l: int| 0 <= l < N_LANES ==> r@[l] == qm31_add(self@[l], rhs@[l]),
    {
        let mut out: [QM31; N_LANES] = self.lanes;
        let mut l: usize = 0;
        while l < N_LANES
            invariant
                l <= N_LANES,
                forall|k: int|
                    0 <= k < l ==> out@[k]@ == qm31_add(self.lanes@[k]@, rhs.lanes@[k]@),
            decreases N_LANES - l,
        {
            out[l] = self.lanes[l].add(rhs.lanes[l]);
            l = l + 1;
        }
        PackedQM31 { lanes: out }
    }

    /// The product, lane by lane.
    pub fn mul(self, rhs: Self) -> (r: Self)
        ensures
            forall|l: int| 0 <= l < N_LANES ==> r@[l] == qm31_mul(self@[l], rhs@[l]),
    {
        let mut out: [QM31; N_LANES] = self.lanes;
        let mut l: usize = 0;
        while l < N_LANES
            invariant
                l <= N_LANES,
                forall|k: int|
                    0 <= k < l ==> out@[k]@ == qm31_mul(self.lanes@[k]@, rhs.lanes@[k]@),
            decreases N_LANES - l,
        {
            out[l] = self.lanes[l].mul(rhs.lanes[l]);
            l = l + 1;
        }
        PackedQM31 { lanes: out }
    }
}

} // verus!
