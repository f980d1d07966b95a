//! Polynomials over the circle domain.

use vstd::prelude::*;

pub mod circle;

verus! {

/// Marks evaluations that are stored in the order of the domain's points.
pub struct NaturalOrder;

/// Marks evaluations that are stored in bit-reversed order: the value at
/// position `i` belongs to the domain point at the index whose binary
/// digits are those of `i` reversed.
pub struct BitReversedOrder;

} // verus!
