//! Lookup tables, as the rows that a circuit's wires may take.

use crate::scalar::Scalar;
use vstd::prelude::*;

verus! {

/// A finished lookup table of rows of three field elements.
pub struct WitnessTable3Arity(pub Vec<[Scalar; 3]>);

/// A finished lookup table of rows of four field elements.
pub struct WitnessTable4Arity(pub Vec<[Scalar; 4]>);

} // verus!
