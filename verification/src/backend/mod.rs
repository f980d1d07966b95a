//! Backends that carry out the prover's column operations.

use crate::backend::simd::m31::PackedBaseField;
use crate::backend::simd::qm31::PackedSecureField;
use vstd::prelude::*;

pub mod simd;

verus! {

/// A way to hold columns of field elements and to work on them.
pub trait Backend: Sized {
    /// A column of base-field elements.
    type Column;

    /// A column of secure-field elements.
    type SecureColumn;
}

/// The backend that holds columns as packed words of sixteen lanes.
#[derive(Copy, Clone, Debug)]
pub struct SimdBackend;

impl Backend for SimdBackend {
    type Column = Vec<PackedBaseField>;

    type SecureColumn = Vec<PackedSecureField>;
}

} // verus!
