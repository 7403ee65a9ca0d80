//! Keys of the gates that multiply a fixed curve point by a scalar.

use crate::commitment::{is_commitment_encoding, Commitment};
use crate::fft::evaluations::Evaluations;
use crate::fft::polynomial::Polynomial;
use crate::widget::pair::{clone_pair, pair_wf, PairView};
use vstd::prelude::*;

verus! {

/// The commitments that a verifier needs for the fixed-base scalar multiplication gates.
#[derive(Clone, Copy, Debug, PartialEq, Eq)]
pub struct VerifierKey {
    /// Left wire selector, shared with the arithmetic gates.
    pub q_l: Commitment,
    /// Right wire selector, shared with the arithmetic gates.
    pub q_r: Commitment,
    /// Switch of the fixed-base gates.
    pub q_fixed_group_add: Commitment,
}

/// What a [`VerifierKey`] stands for: the encodings of its commitments.
pub struct VerifierKeyView {
    pub q_l: Seq<u8>,
    pub q_r: Seq<u8>,
    pub q_fixed_group_add: Seq<u8>,
}

impl VerifierKeyView {
    /// Every member is the encoding of a commitment.
    pub open spec fn wf(self) -> bool {
        &&& is_commitment_encoding(self.q_l)
        &&& is_commitment_encoding(self.q_r)
        &&& is_commitment_encoding(self.q_fixed_group_add)
    }
}

impl View for VerifierKey {
    type V = VerifierKeyView;

    open spec fn view(&self) -> VerifierKeyView {
        VerifierKeyView {
            q_l: self.q_l@,
            q_r: self.q_r@,
            q_fixed_group_add: self.q_fixed_group_add@,
        }
    }
}

/// The polynomials that a prover needs for the fixed-base scalar multiplication gates, each with its
/// evaluations over the extended domain.
#[derive(Debug, PartialEq, Eq)]
pub struct ProverKey {
    /// Left wire selector, shared with the arithmetic gates.
    pub q_l: (Polynomial, Evaluations),
    /// Right wire selector, shared with the arithmetic gates.
    pub q_r: (Polynomial, Evaluations),
    /// Constant selector, shared with the arithmetic gates.
    pub q_c: (Polynomial, Evaluations),
    /// Switch of the fixed-base gates.
    pub q_fixed_group_add: (Polynomial, Evaluations),
}

/// What a [`ProverKey`] stands for.
pub struct ProverKeyView {
    pub q_l: PairView,
    pub q_r: PairView,
    pub q_c: PairView,
    pub q_fixed_group_add: PairView,
}

impl ProverKeyView {
    /// Every scalar of every member is canonical.
    pub open spec fn wf(self) -> bool {
        &&& pair_wf(self.q_l)
        &&& pair_wf(self.q_r)
        &&& pair_wf(self.q_c)
        &&& pair_wf(self.q_fixed_group_add)
    }
}

impl View for ProverKey {
    type V = ProverKeyView;

    open spec fn view(&self) -> ProverKeyView {
        ProverKeyView {
            q_l: self.q_l@,
            q_r: self.q_r@,
            q_c: self.q_c@,
            q_fixed_group_add: self.q_fixed_group_add@,
        }
    }
}

impl Clone for ProverKey {
    fn clone(&self) -> (r: Self)
        ensures
            r@ == self@,
    {
        ProverKey {
            q_l: clone_pair(&self.q_l),
            q_r: clone_pair(&self.q_r),
            q_c: clone_pair(&self.q_c),
            q_fixed_group_add: clone_pair(&self.q_fixed_group_add),
        }
    }
}

} // verus!
