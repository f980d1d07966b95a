//! Columns held as packed lanes of sixteen base-field elements.

pub mod bit_reverse;
pub mod m31;
pub mod qm31;
pub mod utils;
