//! Failures reported while decoding keys from bytes.

use vstd::prelude::*;

verus! {

/// Why a byte buffer could not be decoded.
#[derive(Clone, Copy, Debug, PartialEq, Eq, Structural)]
pub enum Error {
    /// The buffer ends before a field that it announces, or before the fixed
    /// size of what is read.
    BufferTooShort,
    /// Thirty-two bytes do not spell a number below the scalar field's
    /// modulus.
    InvalidScalar,
    /// Forty-eight bytes are not the compressed form of a point of the G1
    /// group.
    InvalidCommitment,
}

} // verus!
