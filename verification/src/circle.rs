//! Points of the circle curve `x^2 + y^2 = 1`.

use vstd::prelude::*;

verus! {

/// A point on the complex circle. Treated as an additive group.
#[derive(Copy, Clone, Debug, PartialEq, Eq)]
pub struct CirclePoint<F> {
    pub x: F,
    pub y: F,
}

} // verus!
