//! The base field of the prover and the extension that challenges are drawn
//! from.

pub mod cm31;
pub mod m31;
pub mod qm31;
