//! Keys of the copy-permutation argument, which ties equal wires together.

use crate::commitment::{is_commitment_encoding, Commitment};
use crate::fft::evaluations::{Evaluations, EvaluationsView};
use crate::fft::polynomial::Polynomial;
use crate::widget::pair::{clone_pair, pair_wf, PairView};
use vstd::prelude::*;

verus! {

/// The commitments that a verifier needs for the permutation argument.
#[derive(Clone, Copy, Debug, PartialEq, Eq)]
pub struct VerifierKey {
    /// Permutation of the left wires.
    pub left_sigma: Commitment,
    /// Permutation of the right wires.
    pub right_sigma: Commitment,
    /// Permutation of the output wires.
    pub out_sigma: Commitment,
    /// Permutation of the fourth wires.
    pub fourth_sigma: Commitment,
}

/// What a [`VerifierKey`] stands for: the encodings of its commitments.
pub struct VerifierKeyView {
    pub left_sigma: Seq<u8>,
    pub right_sigma: Seq<u8>,
    pub out_sigma: Seq<u8>,
    pub fourth_sigma: Seq<u8>,
}

impl VerifierKeyView {
    /// Every member is the encoding of a commitment.
    pub open spec fn wf(self) -> bool {
        &&& is_commitment_encoding(self.left_sigma)
        &&& is_commitment_encoding(self.right_sigma)
        &&& is_commitment_encoding(self.out_sigma)
        &&& is_commitment_encoding(self.fourth_sigma)
    }
}

impl View for VerifierKey {
    type V = VerifierKeyView;

    open spec fn view(&self) -> VerifierKeyView {
        VerifierKeyView {
            left_sigma: self.left_sigma@,
            right_sigma: self.right_sigma@,
            out_sigma: self.out_sigma@,
            fourth_sigma: self.fourth_sigma@,
        }
    }
}

/// The polynomials that a prover needs for the permutation argument, each with its
/// evaluations over the extended domain.
#[derive(Debug, PartialEq, Eq)]
pub struct ProverKey {
    /// Permutation of the left wires.
    pub left_sigma: (Polynomial, Evaluations),
    /// Permutation of the right wires.
    pub right_sigma: (Polynomial, Evaluations),
    /// Permutation of the output wires.
    pub out_sigma: (Polynomial, Evaluations),
    /// Permutation of the fourth wires.
    pub fourth_sigma: (Polynomial, Evaluations),
    /// Evaluations of the identity polynomial over the extended domain.
    pub linear_evaluations: Evaluations,
}

/// What a [`ProverKey`] stands for.
pub struct ProverKeyView {
    pub left_sigma: PairView,
    pub right_sigma: PairView,
    pub out_sigma: PairView,
    pub fourth_sigma: PairView,
    pub linear_evaluations: EvaluationsView,
}

impl ProverKeyView {
    /// Every scalar of every member is canonical.
    pub open spec fn wf(self) -> bool {
        &&& pair_wf(self.left_sigma)
        &&& pair_wf(self.right_sigma)
        &&& pair_wf(self.out_sigma)
        &&& pair_wf(self.fourth_sigma)
        &&& self.linear_evaluations.wf()
    }
}

impl View for ProverKey {
    type V = ProverKeyView;

    open spec fn view(&self) -> ProverKeyView {
        ProverKeyView {
            left_sigma: self.left_sigma@,
            right_sigma: self.right_sigma@,
            out_sigma: self.out_sigma@,
            fourth_sigma: self.fourth_sigma@,
            linear_evaluations: self.linear_evaluations@,
        }
    }
}

impl Clone for ProverKey {
    fn clone(&self) -> (r: Self)
        ensures
            r@ == self@,
    {
        ProverKey {
            left_sigma: clone_pair(&self.left_sigma),
            right_sigma: clone_pair(&self.right_sigma),
            out_sigma: clone_pair(&self.out_sigma),
            fourth_sigma: clone_pair(&self.fourth_sigma),
            linear_evaluations: self.linear_evaluations.clone(),
        }
    }
}

} // verus!
