//! Keys of the scalar multiplication gates.

pub mod fixed_base;
