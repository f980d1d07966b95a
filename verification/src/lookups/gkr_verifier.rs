//! What the GKR verifier takes and gives.

use crate::fields::qm31::SecureField;
use vstd::prelude::*;

verus! {

/// Defines how a circuit operates locally on two input rows to produce a
/// single output row.
#[derive(Debug, Clone, Copy, PartialEq, Eq, Structural)]
pub enum Gate {
    LogUp,
    GrandProduct,
}

/// Batch GKR proof.
pub struct GkrBatchProof {
    /// Sum-check proof for each layer: the coefficients of each round's
    /// polynomial.
    pub sumcheck_proofs: Vec<Vec<Vec<SecureField>>>,
    /// Mask for each layer for each instance.
    pub layer_masks_by_instance: Vec<Vec<Vec<SecureField>>>,
    /// Column circuit outputs for each instance.
    pub output_claims_by_instance: Vec<Vec<SecureField>>,
}

/// Values of interest obtained from the execution of the GKR protocol.
pub struct GkrArtifact {
    /// Out-of-domain (OOD) point for evaluating columns in the input layer.
    pub ood_point: Vec<SecureField>,
    /// The claimed evaluation at `ood_point` for each column in the input
    /// layer of each instance.
    pub claims_to_verify_by_instance: Vec<Vec<SecureField>>,
    /// The number of variables that interpolate the input layer of each
    /// instance.
    pub n_variables_by_instance: Vec<usize>,
}

} // verus!
