//! Keys of the arithmetic gates: the selectors of the identity
//! `q_m·a·b + q_l·a + q_r·b + q_o·c + q_4·d + q_c = 0`, switched by `q_arith`.

use crate::commitment::{is_commitment_encoding, Commitment};
use crate::fft::evaluations::Evaluations;
use crate::fft::polynomial::Polynomial;
use crate::widget::pair::{clone_pair, pair_wf, PairView};
use vstd::prelude::*;

verus! {

/// The commitments that a verifier needs for the arithmetic gates.
#[derive(Clone, Copy, Debug, PartialEq, Eq)]
pub struct VerifierKey {
    /// Multiplication selector.
    pub q_m: Commitment,
    /// Left wire selector.
    pub q_l: Commitment,
    /// Right wire selector.
    pub q_r: Commitment,
    /// Output wire selector.
    pub q_o: Commitment,
    /// Constant selector.
    pub q_c: Commitment,
    /// Fourth wire selector.
    pub q_4: Commitment,
    /// Switch of the arithmetic gates.
    pub q_arith: Commitment,
}

/// What a [`VerifierKey`] stands for: the encodings of its commitments.
pub struct VerifierKeyView {
    pub q_m: Seq<u8>,
    pub q_l: Seq<u8>,
    pub q_r: Seq<u8>,
    pub q_o: Seq<u8>,
    pub q_c: Seq<u8>,
    pub q_4: Seq<u8>,
    pub q_arith: Seq<u8>,
}

impl VerifierKeyView {
    /// Every member is the encoding of a commitment.
    pub open spec fn wf(self) -> bool {
        &&& is_commitment_encoding(self.q_m)
        &&& is_commitment_encoding(self.q_l)
        &&& is_commitment_encoding(self.q_r)
        &&& is_commitment_encoding(self.q_o)
        &&& is_commitment_encoding(self.q_c)
        &&& is_commitment_encoding(self.q_4)
        &&& is_commitment_encoding(self.q_arith)
    }
}

impl View for VerifierKey {
    type V = VerifierKeyView;

    open spec fn view(&self) -> VerifierKeyView {
        VerifierKeyView {
            q_m: self.q_m@,
            q_l: self.q_l@,
            q_r: self.q_r@,
            q_o: self.q_o@,
            q_c: self.q_c@,
            q_4: self.q_4@,
            q_arith: self.q_arith@,
        }
    }
}

/// The polynomials that a prover needs for the arithmetic gates, each with its
/// evaluations over the extended domain.
#[derive(Debug, PartialEq, Eq)]
pub struct ProverKey {
    /// Multiplication selector.
    pub q_m: (Polynomial, Evaluations),
    /// Left wire selector.
    pub q_l: (Polynomial, Evaluations),
    /// Right wire selector.
    pub q_r: (Polynomial, Evaluations),
    /// Output wire selector.
    pub q_o: (Polynomial, Evaluations),
    /// Constant selector.
    pub q_c: (Polynomial, Evaluations),
    /// Fourth wire selector.
    pub q_4: (Polynomial, Evaluations),
    /// Switch of the arithmetic gates.
    pub q_arith: (Polynomial, Evaluations),
}

/// What a [`ProverKey`] stands for.
pub struct ProverKeyView {
    pub q_m: PairView,
    pub q_l: PairView,
    pub q_r: PairView,
    pub q_o: PairView,
    pub q_c: PairView,
    pub q_4: PairView,
    pub q_arith: PairView,
}

impl ProverKeyView {
    /// Every scalar of every member is canonical.
    pub open spec fn wf(self) -> bool {
        &&& pair_wf(self.q_m)
        &&& pair_wf(self.q_l)
        &&& pair_wf(self.q_r)
        &&& pair_wf(self.q_o)
        &&& pair_wf(self.q_c)
        &&& pair_wf(self.q_4)
        &&& pair_wf(self.q_arith)
    }
}

impl View for ProverKey {
    type V = ProverKeyView;

    open spec fn view(&self) -> ProverKeyView {
        ProverKeyView {
            q_m: self.q_m@,
            q_l: self.q_l@,
            q_r: self.q_r@,
            q_o: self.q_o@,
            q_c: self.q_c@,
            q_4: self.q_4@,
            q_arith: self.q_arith@,
        }
    }
}

impl Clone for ProverKey {
    fn clone(&self) -> (r: Self)
        ensures
            r@ == self@,
    {
        ProverKey {
            q_m: clone_pair(&self.q_m),
            q_l: clone_pair(&self.q_l),
            q_r: clone_pair(&self.q_r),
            q_o: clone_pair(&self.q_o),
            q_c: clone_pair(&self.q_c),
            q_4: clone_pair(&self.q_4),
            q_arith: clone_pair(&self.q_arith),
        }
    }
}

} // verus!
