//! Containers of the commitment scheme.

use vstd::prelude::*;

verus! {

/// A container that holds an element for each commitment tree: index 0 is
/// the base trace, the following ones the interaction phases in turn.
#[derive(Debug, Clone)]
pub struct TreeVec<T>(pub Vec<T>);

impl<T> TreeVec<T> {
    pub fn new(vec: Vec<T>) -> (r: Self)
        ensures
            r.0 == vec,
    {
        TreeVec(vec)
    }

    /// The number of trees.
    pub fn len(&self) -> (r: usize)
        ensures
            r == self.0@.len(),
    {
        self.0.len()
    }
}

/// The shape of a per-tree, per-column container: the number of columns of
/// each tree.
pub open spec fn tree_shape<T>(trees: TreeVec<Vec<T>>) -> Seq<nat> {
    Seq::new(trees.0@.len(), |t: int| trees.0@[t]@.len())
}

/// Whether two per-tree, per-column containers have as many trees, and as
/// many columns in each tree.
pub fn same_shape<S, T>(left: &TreeVec<Vec<S>>, right: &TreeVec<Vec<T>>) -> (r: bool)
    ensures
        r == (tree_shape(*left) == tree_shape(*right)),
{
    if left.0.len() != right.0.len() {
        assert(tree_shape(*left).len() != tree_shape(*right).len());
        return false;
    }
    let mut t: usize = 0;
    while t < left.0.len()
        invariant
            t <= left.0@.len(),
            left.0@.len() == right.0@.len(),
            forall|k: int| 0 <= k < t ==> left.0@[k]@.len() == right.0@[k]@.len(),
        decreases left.0@.len() - t,
    {
        if left.0[t].len() != right.0[t].len() {
            assert(tree_shape(*left)[t as int] != tree_shape(*right)[t as int]);
            return false;
        }
        t = t + 1;
    }
    assert(tree_shape(*left) =~= tree_shape(*right));
    true
}

} // verus!
