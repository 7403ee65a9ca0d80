//! Keys of the elliptic-curve gates.

pub mod curve_addition;
pub mod scalar_mul;
