//! Lookup arguments, batched through the GKR protocol.

pub mod gkr_verifier;
