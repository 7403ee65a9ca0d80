//! The keys of a PLONK proof system with lookups: how the selector and sigma
//! polynomials of a circuit are grouped into a proving key and their
//! commitments into a verification key, how both keys are written to bytes
//! and read back, and how a verification key enters a Fiat-Shamir
//! transcript.
//!
//! Field elements and curve points are held by their canonical encodings.
//! Whether bytes are such an encoding is asked of `dusk_bls12_381`; the
//! transcript is that of `merlin`. Everything else is proved: that a key read
//! from the bytes it was written to is the same key, that a buffer cut short
//! is rejected, and that what a key makes of a transcript depends on the
//! values of the key alone.

pub mod bytes;
pub mod commitment;
pub mod error;
pub mod fft;
pub mod scalar;
pub mod table;
pub mod transcript;
pub mod widget;
