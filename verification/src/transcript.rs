//! Binding public values into a Fiat-Shamir transcript.

use crate::bytes::le_encoding;
use crate::commitment::Commitment;
use merlin::Transcript;
use vstd::prelude::*;
use vstd::string::StringSliceAdditionalSpecFns;

verus! {

/// `merlin::Transcript`. Its inside is a STROBE-128 duplex state that this
/// crate never reads.
#[verifier::external_type_specification]
#[verifier::external_body]
pub struct ExTranscript(Transcript);

/// The state that a transcript is in, as bytes: what the transcript holds
/// of all that it has taken in so far.
pub uninterp spec fn transcript_state(transcript: Transcript) -> Seq<u8>;

/// The state that `Transcript::append_message` leaves a transcript in, given
/// the state before, the label and the message.
pub uninterp spec fn absorbed(state: Seq<u8>, label: Seq<u8>, message: Seq<u8>) -> Seq<u8>;

/// `Transcript::append_message` feeds into the state the label, the length
/// of the message as four bytes, and the message; nothing else enters, so
/// that the state it leaves depends on the state before, the label and the
/// message alone. It panics on a message of 2^32 bytes or more.
pub assume_specification[ Transcript::append_message ](
    transcript: &mut Transcript,
    label: &'static [u8],
    message: &[u8],
)
    requires
        message@.len() <= u32::MAX,
    ensures
        transcript_state(*final(transcript)) == absorbed(
            transcript_state(*old(transcript)),
            label@,
            message@,
        ),
;

/// `Transcript::append_u64` writes `x` as eight bytes, least significant
/// first, and appends them as `append_message` does.
pub assume_specification[ Transcript::append_u64 ](
    transcript: &mut Transcript,
    label: &'static [u8],
    x: u64,
)
    ensures
        transcript_state(*final(transcript)) == absorbed(
            transcript_state(*old(transcript)),
            label@,
            le_encoding(x as nat, 8),
        ),
;

/// The state after a commitment was appended under `label`.
pub open spec fn with_commitment(state: Seq<u8>, label: Seq<u8>, commitment: Seq<u8>) -> Seq<u8> {
    absorbed(state, label, commitment)
}

/// The state after the circuit size was appended: a domain separator, then
/// the size as an integer.
pub open spec fn with_circuit_size(state: Seq<u8>, n: u64) -> Seq<u8> {
    absorbed(
        absorbed(state, "dom-sep".spec_bytes(), "circuit_size".spec_bytes()),
        "n".spec_bytes(),
        le_encoding(n as nat, 8),
    )
}

/// Appends a commitment to the transcript under `label`.
pub fn append_commitment(transcript: &mut Transcript, label: &'static [u8], commitment: &Commitment)
    ensures
        transcript_state(*final(transcript)) == with_commitment(
            transcript_state(*old(transcript)),
            label@,
            commitment@,
        ),
{
    let bytes = commitment.to_bytes();
    transcript.append_message(label, bytes.as_slice());
}

/// Appends the size of the circuit to the transcript, set apart from what
/// came before by a domain separator.
pub fn circuit_domain_sep(transcript: &mut Transcript, n: u64)
    ensures
        transcript_state(*final(transcript)) == with_circuit_size(
            transcript_state(*old(transcript)),
            n,
        ),
{
    proof {
        reveal_strlit("circuit_size");
        vstd::string::is_ascii_spec_bytes("circuit_size");
        assert(vstd::string::is_ascii("circuit_size"));
    }
    transcript.append_message("dom-sep".as_bytes(), "circuit_size".as_bytes());
    transcript.append_u64("n".as_bytes(), n);
}

} // verus!
