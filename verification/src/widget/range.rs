//! Keys of the range gates, which bound a wire by its base-four digits.

use crate::commitment::{is_commitment_encoding, Commitment};
use crate::fft::evaluations::Evaluations;
use crate::fft::polynomial::Polynomial;
use crate::widget::pair::{clone_pair, pair_wf, PairView};
use vstd::prelude::*;

verus! {

/// The commitments that a verifier needs for the range gates.
#[derive(Clone, Copy, Debug, PartialEq, Eq)]
pub struct VerifierKey {
    /// Switch of the range gates.
    pub q_range: Commitment,
}

/// What a [`VerifierKey`] stands for: the encodings of its commitments.
pub struct VerifierKeyView {
    pub q_range: Seq<u8>,
}

impl VerifierKeyView {
    /// Every member is the encoding of a commitment.
    pub open spec fn wf(self) -> bool {
        &&& is_commitment_encoding(self.q_range)
    }
}

impl View for VerifierKey {
    type V = VerifierKeyView;

    open spec fn view(&self) -> VerifierKeyView {
        VerifierKeyView {
            q_range: self.q_range@,
        }
    }
}

/// The polynomials that a prover needs for the range gates, each with its
/// evaluations over the extended domain.
#[derive(Debug, PartialEq, Eq)]
pub struct ProverKey {
    /// Switch of the range gates.
    pub q_range: (Polynomial, Evaluations),
}

/// What a [`ProverKey`] stands for.
pub struct ProverKeyView {
    pub q_range: PairView,
}

impl ProverKeyView {
    /// Every scalar of every member is canonical.
    pub open spec fn wf(self) -> bool {
        &&& pair_wf(self.q_range)
    }
}

impl View for ProverKey {
    type V = ProverKeyView;

    open spec fn view(&self) -> ProverKeyView {
        ProverKeyView {
            q_range: self.q_range@,
        }
    }
}

impl Clone for ProverKey {
    fn clone(&self) -> (r: Self)
        ensures
            r@ == self@,
    {
        ProverKey {
            q_range: clone_pair(&self.q_range),
        }
    }
}

} // verus!
