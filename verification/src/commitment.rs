//! KZG10 polynomial commitments: points of the G1 group, held by their
//! compressed encoding.

use crate::error::Error;
use dusk_bls12_381::G1Affine;
use dusk_bytes::DeserializableSlice;
use vstd::prelude::*;

verus! {

/// The number of bytes of an encoded commitment.
pub const COMMITMENT_SIZE: usize = 48;

/// Whether `G1Affine::from_bytes` of `dusk_bls12_381` accepts `bytes` as the
/// compressed form of a point. It does where the flag bits in the first byte
/// are consistent, the x-coordinate is reduced and belongs to a point of the
/// curve, and that point lies in the subgroup of prime order.
pub uninterp spec fn g1_decoder_accepts(bytes: Seq<u8>) -> bool;

/// Whether `bytes` are the encoding of a commitment.
pub open spec fn is_commitment_encoding(bytes: Seq<u8>) -> bool {
    bytes.len() == 48 && g1_decoder_accepts(bytes)
}

/// A commitment to a polynomial. The value kept is the point's compressed
/// encoding, which is what the codec and the transcript read; its view is
/// that encoding.
#[derive(Clone, Copy, Debug, PartialEq, Eq)]
pub struct Commitment {
    bytes: [u8; COMMITMENT_SIZE],
}

impl View for Commitment {
    type V = Seq<u8>;

    closed spec fn view(&self) -> Seq<u8> {
        self.bytes@
    }
}

impl Commitment {
    /// Every commitment holds the encoding of a point of the group.
    #[verifier::type_invariant]
    pub open spec fn holds_point_encoding(self) -> bool {
        is_commitment_encoding(self@)
    }

    /// Decodes a commitment; fails on bytes that are no compressed point of
    /// the group.
    pub fn from_bytes(bytes: &[u8; COMMITMENT_SIZE]) -> (r: Result<Commitment, Error>)
        ensures
            is_commitment_encoding(bytes@) ==> (r matches Ok(c) && c@ == bytes@),
            !is_commitment_encoding(bytes@) ==> r == Err::<Commitment, Error>(
                Error::InvalidCommitment,
            ),
    {
        if g1_accepts(bytes) {
            Ok(Commitment { bytes: *bytes })
        } else {
            Err(Error::InvalidCommitment)
        }
    }

    /// The compressed encoding of this commitment.
    pub fn to_bytes(&self) -> (r: [u8; COMMITMENT_SIZE])
        ensures
            r@ == self@,
            is_commitment_encoding(r@),
    {
        proof {
            use_type_invariant(self);
        }
        self.bytes
    }
}

/// Whether `dusk_bls12_381` decodes `bytes` as a point of G1. The call is
/// `G1Affine::from_slice`, which `dusk_bytes` provides for every type with a
/// fixed-size codec: given at least forty-eight bytes it hands the first
/// forty-eight to `G1Affine::from_bytes`. Whether that function succeeds
/// depends on the bytes alone, and `g1_decoder_accepts` is the name of its
/// answer. Nothing but the success of the call is used.
#[verifier::external_body]
fn g1_accepts(bytes: &[u8; COMMITMENT_SIZE]) -> (r: bool)
    ensures
        r == g1_decoder_accepts(bytes@),
{
    G1Affine::from_slice(bytes).is_ok()
}

} // verus!
