//! The keys of a circuit: one fragment for each family of gates, and the
//! composite keys that hold them.

pub mod arithmetic;
pub mod ecc;
pub mod logic;
pub mod pair;
pub mod permutation;
pub mod prover_key;
pub mod range;
pub mod verifier_key;

pub use prover_key::{ProverKey, ProverKeyView};
pub use verifier_key::{VerifierKey, VerifierKeyView};
