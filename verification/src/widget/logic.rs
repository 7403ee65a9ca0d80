//! Keys of the logic gates, which check bitwise AND and XOR.

use crate::commitment::{is_commitment_encoding, Commitment};
use crate::fft::evaluations::Evaluations;
use crate::fft::polynomial::Polynomial;
use crate::widget::pair::{clone_pair, pair_wf, PairView};
use vstd::prelude::*;

verus! {

/// The commitments that a verifier needs for the logic gates.
#[derive(Clone, Copy, Debug, PartialEq, Eq)]
pub struct VerifierKey {
    /// Constant selector, shared with the arithmetic gates.
    pub q_c: Commitment,
    /// Switch of the logic gates.
    pub q_logic: Commitment,
}

/// What a [`VerifierKey`] stands for: the encodings of its commitments.
pub struct VerifierKeyView {
    pub q_c: Seq<u8>,
    pub q_logic: Seq<u8>,
}

impl VerifierKeyView {
    /// Every member is the encoding of a commitment.
    pub open spec fn wf(self) -> bool {
        &&& is_commitment_encoding(self.q_c)
        &&& is_commitment_encoding(self.q_logic)
    }
}

impl View for VerifierKey {
    type V = VerifierKeyView;

    open spec fn view(&self) -> VerifierKeyView {
        VerifierKeyView {
            q_c: self.q_c@,
            q_logic: self.q_logic@,
        }
    }
}

/// The polynomials that a prover needs for the logic gates, each with its
/// evaluations over the extended domain.
#[derive(Debug, PartialEq, Eq)]
pub struct ProverKey {
    /// Constant selector, shared with the arithmetic gates.
    pub q_c: (Polynomial, Evaluations),
    /// Switch of the logic gates.
    pub q_logic: (Polynomial, Evaluations),
}

/// What a [`ProverKey`] stands for.
pub struct ProverKeyView {
    pub q_c: PairView,
    pub q_logic: PairView,
}

impl ProverKeyView {
    /// Every scalar of every member is canonical.
    pub open spec fn wf(self) -> bool {
        &&& pair_wf(self.q_c)
        &&& pair_wf(self.q_logic)
    }
}

impl View for ProverKey {
    type V = ProverKeyView;

    open spec fn view(&self) -> ProverKeyView {
        ProverKeyView {
            q_c: self.q_c@,
            q_logic: self.q_logic@,
        }
    }
}

impl Clone for ProverKey {
    fn clone(&self) -> (r: Self)
        ensures
            r@ == self@,
    {
        ProverKey {
            q_c: clone_pair(&self.q_c),
            q_logic: clone_pair(&self.q_logic),
        }
    }
}

} // verus!
