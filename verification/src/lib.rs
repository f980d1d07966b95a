//! Core building blocks of a STARK prover over the Mersenne-31 circle group:
//! the AIR abstraction layer with its evaluation accumulators, and the
//! bit-reversal permutation over packed base-field lanes.

use crate::fields::qm31::{Quartic, SecureField};
use vstd::prelude::*;

pub mod air;
pub mod backend;
pub mod channel;
pub mod circle;
pub mod fields;
pub mod lookups;
pub mod math;
pub mod pcs;
pub mod poly;
pub mod utils;

verus! {

/// A vector in which each element relates (by index) to a column in the trace.
pub type ColumnVec<T> = Vec<T>;

/// The mapping that a list of named values stands for: each identifier is
/// mapped to the value listed with it, a later entry taking the place of an
/// earlier one with the same identifier.
pub open spec fn entries_map(entries: Seq<(String, SecureField)>) -> Map<Seq<char>, Quartic>
    decreases entries.len(),
{
    if entries.len() == 0 {
        Map::empty()
    } else {
        entries_map(entries.drop_last()).insert(entries.last().0@, entries.last().1@)
    }
}

/// No identifier is listed twice.
pub open spec fn distinct_ids(entries: Seq<(String, SecureField)>) -> bool {
    forall|i: int, j: int| 0 <= i < j < entries.len() ==> entries[i].0@ != entries[j].0@
}

/// The identifiers of a list map to something exactly if they are listed.
pub proof fn lemma_entries_map_domain(entries: Seq<(String, SecureField)>, id: Seq<char>)
    ensures
        entries_map(entries).contains_key(id) <==> exists|i: int|
            0 <= i < entries.len() && (#[trigger] entries[i]).0@ == id,
    decreases entries.len(),
{
    if entries.len() > 0 {
        let front = entries.drop_last();
        lemma_entries_map_domain(front, id);
        if entries_map(entries).contains_key(id) {
            if entries.last().0@ == id {
                assert(entries[entries.len() - 1].0@ == id);
            } else {
                let i = choose|i: int| 0 <= i < front.len() && (#[trigger] front[i]).0@ == id;
                assert(entries[i].0@ == id);
            }
        }
        if exists|i: int| 0 <= i < entries.len() && (#[trigger] entries[i]).0@ == id {
            let i = choose|i: int| 0 <= i < entries.len() && (#[trigger] entries[i]).0@ == id;
            if i < front.len() {
                assert(front[i].0@ == id);
            }
        }
    }
}

/// In a list without repeated identifiers, each identifier maps to the
/// value listed with it.
pub proof fn lemma_entries_map_value(entries: Seq<(String, SecureField)>, i: int)
    requires
        distinct_ids(entries),
        0 <= i < entries.len(),
    ensures
        entries_map(entries).contains_key(entries[i].0@),
        entries_map(entries)[entries[i].0@] == entries[i].1@,
    decreases entries.len(),
{
    let front = entries.drop_last();
    if i < entries.len() - 1 {
        assert(distinct_ids(front)) by {
            assert forall|a: int, b: int| 0 <= a < b < front.len() implies front[a].0@
                != front[b].0@ by {
                assert(entries[a].0@ != entries[b].0@);
            }
        }
        assert(front[i] == entries[i]);
        lemma_entries_map_value(front, i);
        assert(entries[i].0@ != entries[entries.len() - 1].0@);
    }
}

/// The place of identifier `id` in `entries`, if it is listed.
fn find_entry(entries: &Vec<(String, SecureField)>, id: &String) -> (r: Option<usize>)
    ensures
        match r {
            Some(i) => i < entries@.len() && entries@[i as int].0@ == id@,
            None => forall|i: int| 0 <= i < entries@.len() ==> entries@[i].0@ != id@,
        },
{
    let mut i: usize = 0;
    while i < entries.len()
        invariant
            i <= entries@.len(),
            forall|k: int| 0 <= k < i ==> entries@[k].0@ != id@,
        decreases entries@.len() - i,
    {
        if entries[i].0 == *id {
            return Some(i);
        }
        i = i + 1;
    }
    None
}

/// Whether no identifier is listed twice in `entries`.
fn has_distinct_ids(entries: &Vec<(String, SecureField)>) -> (r: bool)
    ensures
        r == distinct_ids(entries@),
{
    let mut j: usize = 0;
    while j < entries.len()
        invariant
            j <= entries@.len(),
            forall|a: int, b: int| 0 <= a < b < j ==> entries@[a].0@ != entries@[b].0@,
        decreases entries@.len() - j,
    {
        let mut i: usize = 0;
        while i < j
            invariant
                i <= j < entries@.len(),
                forall|a: int| 0 <= a < i ==> entries@[a].0@ != entries@[j as int].0@,
            decreases j - i,
        {
            if entries[i].0 == entries[j].0 {
                return false;
            }
            i = i + 1;
        }
        j = j + 1;
    }
    true
}

/// What `get` owes: the value that `id` maps to, if it maps to one.
pub open spec fn is_lookup_result(
    map: Map<Seq<char>, Quartic>,
    id: Seq<char>,
    r: Option<SecureField>,
) -> bool {
    match r {
        Some(value) => map.contains_key(id) && value@ == map[id],
        None => !map.contains_key(id),
    }
}

/// Random elements that the verifier draws after a commitment phase, each
/// under the identifier by which components ask for it.
pub struct InteractionElements {
    entries: Vec<(String, SecureField)>,
}

impl View for InteractionElements {
    type V = Map<Seq<char>, Quartic>;

    closed spec fn view(&self) -> Map<Seq<char>, Quartic> {
        entries_map(self.entries@)
    }
}

impl InteractionElements {
    #[verifier::type_invariant]
    spec fn no_id_twice(self) -> bool {
        distinct_ids(self.entries@)
    }

    /// The elements listed in `elements`, if no identifier is listed twice.
    pub fn new(elements: Vec<(String, SecureField)>) -> (r: Option<Self>)
        ensures
            r is Some <==> distinct_ids(elements@),
            r is Some ==> r->0@ == entries_map(elements@),
    {
        if has_distinct_ids(&elements) {
            Some(InteractionElements { entries: elements })
        } else {
            None
        }
    }

    /// No elements at all.
    pub fn empty() -> (r: Self)
        ensures
            r@ == Map::<Seq<char>, Quartic>::empty(),
    {
        InteractionElements { entries: Vec::new() }
    }

    /// The number of elements.
    pub fn len(&self) -> (r: usize)
        ensures
            r == self@.dom().len(),
            self@.dom().finite(),
    {
        proof {
            use_type_invariant(self);
            lemma_entries_map_len(self.entries@);
        }
        self.entries.len()
    }

    /// The element under identifier `id`, if there is one.
    pub fn get(&self, id: &String) -> (r: Option<SecureField>)
        ensures
            is_lookup_result(self@, id@, r),
    {
        proof {
            use_type_invariant(self);
            lemma_entries_map_domain(self.entries@, id@);
        }
        match find_entry(&self.entries, id) {
            Some(i) => {
                proof {
                    lemma_entries_map_value(self.entries@, i as int);
                }
                Some(self.entries[i].1)
            },
            None => None,
        }
    }

    /// Whether there is an element under each of the identifiers `ids`.
    pub fn contains_all(&self, ids: &Vec<String>) -> (r: bool)
        ensures
            r == forall|i: int| 0 <= i < ids@.len() ==> self@.contains_key(#[trigger] ids@[i]@),
    {
        let mut i: usize = 0;
        while i < ids.len()
            invariant
                i <= ids@.len(),
                forall|k: int| 0 <= k < i ==> self@.contains_key(#[trigger] ids@[k]@),
            decreases ids@.len() - i,
        {
            if self.get(&ids[i]).is_none() {
                return false;
            }
            i = i + 1;
        }
        true
    }
}

/// A list without repeated identifiers maps as many identifiers as it has
/// entries.
pub proof fn lemma_entries_map_len(entries: Seq<(String, SecureField)>)
    requires
        distinct_ids(entries),
    ensures
        entries_map(entries).dom().finite(),
        entries_map(entries).dom().len() == entries.len(),
    decreases entries.len(),
{
    if entries.len() > 0 {
        let front = entries.drop_last();
        assert(distinct_ids(front)) by {
            assert forall|a: int, b: int| 0 <= a < b < front.len() implies front[a].0@
                != front[b].0@ by {
                assert(entries[a].0@ != entries[b].0@);
            }
        }
        lemma_entries_map_len(front);
        lemma_entries_map_domain(front, entries.last().0@);
        if entries_map(front).contains_key(entries.last().0@) {
            let i = choose|i: int| 0 <= i < front.len() && (#[trigger] front[i]).0@
                == entries.last().0@;
            assert(entries[i].0@ != entries[entries.len() - 1].0@);
        }
    }
}

/// Values that the prover draws from the lookups of one phase and that the
/// constraints of later phases read, each under its identifier.
pub struct LookupValues {
    entries: Vec<(String, SecureField)>,
}

impl View for LookupValues {
    type V = Map<Seq<char>, Quartic>;

    closed spec fn view(&self) -> Map<Seq<char>, Quartic> {
        entries_map(self.entries@)
    }
}

impl LookupValues {
    #[verifier::type_invariant]
    spec fn no_id_twice(self) -> bool {
        distinct_ids(self.entries@)
    }

    /// The values listed in `values`, if no identifier is listed twice.
    pub fn new(values: Vec<(String, SecureField)>) -> (r: Option<Self>)
        ensures
            r is Some <==> distinct_ids(values@),
            r is Some ==> r->0@ == entries_map(values@),
    {
        if has_distinct_ids(&values) {
            Some(LookupValues { entries: values })
        } else {
            None
        }
    }

    /// The number of values.
    pub fn len(&self) -> (r: usize)
        ensures
            r == self@.dom().len(),
            self@.dom().finite(),
    {
        proof {
            use_type_invariant(self);
            lemma_entries_map_len(self.entries@);
        }
        self.entries.len()
    }

    /// The value under identifier `id`, if there is one.
    pub fn get(&self, id: &String) -> (r: Option<SecureField>)
        ensures
            is_lookup_result(self@, id@, r),
    {
        proof {
            use_type_invariant(self);
            lemma_entries_map_domain(self.entries@, id@);
        }
        match find_entry(&self.entries, id) {
            Some(i) => {
                proof {
                    lemma_entries_map_value(self.entries@, i as int);
                }
                Some(self.entries[i].1)
            },
            None => None,
        }
    }
}

impl Default for LookupValues {
    /// No values at all.
    fn default() -> (r: Self)
        ensures
            r@ == Map::<Seq<char>, Quartic>::empty(),
    {
        LookupValues { entries: Vec::new() }
    }
}

} // verus!
