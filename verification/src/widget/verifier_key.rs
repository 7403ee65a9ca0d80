//! The verification key of a circuit: its size and the commitments to its
//! selector and sigma polynomials.

use crate::bytes::{append_bytes, append_le, concat, copy_prefix, le_encoding, le_read, le_value};
use crate::commitment::{is_commitment_encoding, Commitment, COMMITMENT_SIZE};
use crate::error::Error;
use crate::transcript::{absorbed, append_commitment, circuit_domain_sep, transcript_state};
use crate::transcript::with_circuit_size;
use crate::widget::arithmetic;
use crate::widget::ecc::curve_addition;
use crate::widget::ecc::scalar_mul::fixed_base;
use crate::widget::logic;
use crate::widget::permutation;
use crate::widget::range;
use merlin::Transcript;
use vstd::prelude::*;
use vstd::slice::slice_subrange;
use vstd::string::StringSliceAdditionalSpecFns;

verus! {

/// The number of commitments of a verification key.
pub const NUM_COMMITMENTS: usize = 15;

/// The number of bytes of an encoded verification key: eight for the circuit
/// size and forty-eight for each of the fifteen commitments.
pub const VERIFIER_KEY_SIZE: usize = NUM_COMMITMENTS * COMMITMENT_SIZE + 8;

/// The verification key of a circuit.
///
/// Some selectors constrain several families of gates at once, and the
/// fragments of those families each hold them: `q_c` is held by the
/// arithmetic and the logic fragment, `q_l` and `q_r` by the arithmetic and
/// the fixed-base fragment. In every key the copies are equal.
#[derive(Clone, Copy, Debug, PartialEq, Eq)]
pub struct VerifierKey {
    n: usize,
    arithmetic: arithmetic::VerifierKey,
    logic: logic::VerifierKey,
    range: range::VerifierKey,
    fixed_base: fixed_base::VerifierKey,
    variable_base: curve_addition::VerifierKey,
    permutation: permutation::VerifierKey,
}

/// What a [`VerifierKey`] stands for: the circuit size and the views of the
/// six fragments.
pub struct VerifierKeyView {
    pub n: usize,
    pub arithmetic: arithmetic::VerifierKeyView,
    pub logic: logic::VerifierKeyView,
    pub range: range::VerifierKeyView,
    pub fixed_base: fixed_base::VerifierKeyView,
    pub variable_base: curve_addition::VerifierKeyView,
    pub permutation: permutation::VerifierKeyView,
}

/// The label under which the commitment at place `i` of the protocol order
/// enters a transcript.
pub open spec fn commitment_label(i: int) -> Seq<u8> {
    if i == 0 {
        "q_m".spec_bytes()
    } else if i == 1 {
        "q_l".spec_bytes()
    } else if i == 2 {
        "q_r".spec_bytes()
    } else if i == 3 {
        "q_o".spec_bytes()
    } else if i == 4 {
        "q_c".spec_bytes()
    } else if i == 5 {
        "q_4".spec_bytes()
    } else if i == 6 {
        "q_arith".spec_bytes()
    } else if i == 7 {
        "q_range".spec_bytes()
    } else if i == 8 {
        "q_logic".spec_bytes()
    } else if i == 9 {
        "q_variable_group_add".spec_bytes()
    } else if i == 10 {
        "q_fixed_group_add".spec_bytes()
    } else if i == 11 {
        "left_sigma".spec_bytes()
    } else if i == 12 {
        "right_sigma".spec_bytes()
    } else if i == 13 {
        "out_sigma".spec_bytes()
    } else {
        "fourth_sigma".spec_bytes()
    }
}

/// The state of a transcript after the first `count` of `commitments` were
/// appended to it, each under its label.
pub open spec fn absorb_commitments(state: Seq<u8>, commitments: Seq<Seq<u8>>, count: nat) -> Seq<
    u8,
>
    decreases count,
{
    if count == 0 {
        state
    } else {
        absorbed(
            absorb_commitments(state, commitments, (count - 1) as nat),
            commitment_label(count - 1),
            commitments[count - 1],
        )
    }
}

/// The bytes of an encoded key that hold the commitment at place `i`.
pub open spec fn commitment_bytes(s: Seq<u8>, i: int) -> Seq<u8> {
    s.subrange(8 + 48 * i, 56 + 48 * i)
}

impl VerifierKeyView {
    /// The key of a circuit of size `n` with the given commitments, each
    /// placed in every fragment that holds it.
    pub open spec fn of_parts(
        n: usize,
        q_m: Seq<u8>,
        q_l: Seq<u8>,
        q_r: Seq<u8>,
        q_o: Seq<u8>,
        q_4: Seq<u8>,
        q_c: Seq<u8>,
        q_arith: Seq<u8>,
        q_logic: Seq<u8>,
        q_range: Seq<u8>,
        q_fixed_group_add: Seq<u8>,
        q_variable_group_add: Seq<u8>,
        left_sigma: Seq<u8>,
        right_sigma: Seq<u8>,
        out_sigma: Seq<u8>,
        fourth_sigma: Seq<u8>,
    ) -> VerifierKeyView {
        VerifierKeyView {
            n,
            arithmetic: arithmetic::VerifierKeyView { q_m, q_l, q_r, q_o, q_c, q_4, q_arith },
            logic: logic::VerifierKeyView { q_c, q_logic },
            range: range::VerifierKeyView { q_range },
            fixed_base: fixed_base::VerifierKeyView { q_l, q_r, q_fixed_group_add },
            variable_base: curve_addition::VerifierKeyView { q_variable_group_add },
            permutation: permutation::VerifierKeyView {
                left_sigma,
                right_sigma,
                out_sigma,
                fourth_sigma,
            },
        }
    }

    /// The fifteen commitments in the order of the protocol, which is the
    /// order of the encoding and of the transcript alike. A shared selector
    /// is taken from the arithmetic fragment.
    pub open spec fn commitments(self) -> Seq<Seq<u8>> {
        seq![
            self.arithmetic.q_m,
            self.arithmetic.q_l,
            self.arithmetic.q_r,
            self.arithmetic.q_o,
            self.arithmetic.q_c,
            self.arithmetic.q_4,
            self.arithmetic.q_arith,
            self.range.q_range,
            self.logic.q_logic,
            self.variable_base.q_variable_group_add,
            self.fixed_base.q_fixed_group_add,
            self.permutation.left_sigma,
            self.permutation.right_sigma,
            self.permutation.out_sigma,
            self.permutation.fourth_sigma,
        ]
    }

    /// The key that holds `commitments`, given in the order of the protocol.
    pub open spec fn from_commitments(n: usize, commitments: Seq<Seq<u8>>) -> VerifierKeyView {
        Self::of_parts(
            n,
            commitments[0],
            commitments[1],
            commitments[2],
            commitments[3],
            commitments[5],
            commitments[4],
            commitments[6],
            commitments[8],
            commitments[7],
            commitments[10],
            commitments[9],
            commitments[11],
            commitments[12],
            commitments[13],
            commitments[14],
        )
    }

    /// The copies of each shared selector are equal.
    pub open spec fn aliased(self) -> bool {
        &&& self.logic.q_c == self.arithmetic.q_c
        &&& self.fixed_base.q_l == self.arithmetic.q_l
        &&& self.fixed_base.q_r == self.arithmetic.q_r
    }

    /// The copies of each shared selector are equal, and every commitment is
    /// the encoding of a point of the group.
    pub open spec fn wf(self) -> bool {
        &&& self.aliased()
        &&& forall|i: int| 0 <= i < 15 ==> is_commitment_encoding(#[trigger] self.commitments()[i])
    }

    /// The bytes that stand for this key: the circuit size as eight bytes,
    /// then the commitments in the order of the protocol.
    pub open spec fn encoding(self) -> Seq<u8> {
        le_encoding(self.n as nat, 8) + concat(self.commitments())
    }

    /// The key that `s` stands for. A buffer under 728 bytes is too short;
    /// after that only a commitment can be at fault. Bytes beyond the first
    /// 728 are not read.
    pub open spec fn decoding(s: Seq<u8>) -> Result<VerifierKeyView, Error> {
        if s.len() < 728 {
            Err(Error::BufferTooShort)
        } else if exists|i: int| 0 <= i < 15 && !is_commitment_encoding(commitment_bytes(s, i)) {
            Err(Error::InvalidCommitment)
        } else {
            Ok(
                Self::from_commitments(
                    le_value(s.take(8)) as usize,
                    Seq::new(15, |i: int| commitment_bytes(s, i)),
                ),
            )
        }
    }

    /// The state of a transcript that was in `state` and then took in this
    /// key: the fifteen commitments in the order of the protocol, each under
    /// its label, then the circuit size.
    pub open spec fn seeded(self, state: Seq<u8>) -> Seq<u8> {
        with_circuit_size(absorb_commitments(state, self.commitments(), 15), self.n as u64)
    }
}

impl View for VerifierKey {
    type V = VerifierKeyView;

    closed spec fn view(&self) -> VerifierKeyView {
        VerifierKeyView {
            n: self.n,
            arithmetic: self.arithmetic@,
            logic: self.logic@,
            range: self.range@,
            fixed_base: self.fixed_base@,
            variable_base: self.variable_base@,
            permutation: self.permutation@,
        }
    }
}

/// The label of the commitment at place `i` of the protocol order.
fn label(i: usize) -> (r: &'static [u8])
    requires
        i < 15,
    ensures
        r@ == commitment_label(i as int),
{
    match i {
        0 => "q_m".as_bytes(),
        1 => "q_l".as_bytes(),
        2 => "q_r".as_bytes(),
        3 => "q_o".as_bytes(),
        4 => "q_c".as_bytes(),
        5 => "q_4".as_bytes(),
        6 => "q_arith".as_bytes(),
        7 => "q_range".as_bytes(),
        8 => "q_logic".as_bytes(),
        9 => "q_variable_group_add".as_bytes(),
        10 => "q_fixed_group_add".as_bytes(),
        11 => "left_sigma".as_bytes(),
        12 => "right_sigma".as_bytes(),
        13 => "out_sigma".as_bytes(),
        _ => "fourth_sigma".as_bytes(),
    }
}

impl VerifierKey {
    #[verifier::type_invariant]
    spec fn shared_selectors_agree(self) -> bool {
        self@.aliased()
    }

    /// Builds the key of a circuit of size `n` from the commitments to its
    /// selector and sigma polynomials. A selector that several families of
    /// gates share is placed in the fragment of each.
    pub fn from_polynomial_commitments(
        n: usize,
        q_m: Commitment,
        q_l: Commitment,
        q_r: Commitment,
        q_o: Commitment,
        q_4: Commitment,
        q_c: Commitment,
        q_arith: Commitment,
        q_logic: Commitment,
        q_range: Commitment,
        q_fixed_group_add: Commitment,
        q_variable_group_add: Commitment,
        left_sigma: Commitment,
        right_sigma: Commitment,
        out_sigma: Commitment,
        fourth_sigma: Commitment,
    ) -> (r: VerifierKey)
        ensures
            r@ == VerifierKeyView::of_parts(
                n,
                q_m@,
                q_l@,
                q_r@,
                q_o@,
                q_4@,
                q_c@,
                q_arith@,
                q_logic@,
                q_range@,
                q_fixed_group_add@,
                q_variable_group_add@,
                left_sigma@,
                right_sigma@,
                out_sigma@,
                fourth_sigma@,
            ),
            r@.wf(),
    {
        proof {
            use_type_invariant(&q_m);
            use_type_invariant(&q_l);
            use_type_invariant(&q_r);
            use_type_invariant(&q_o);
            use_type_invariant(&q_4);
            use_type_invariant(&q_c);
            use_type_invariant(&q_arith);
            use_type_invariant(&q_logic);
            use_type_invariant(&q_range);
            use_type_invariant(&q_fixed_group_add);
            use_type_invariant(&q_variable_group_add);
            use_type_invariant(&left_sigma);
            use_type_invariant(&right_sigma);
            use_type_invariant(&out_sigma);
            use_type_invariant(&fourth_sigma);
        }
        let arithmetic = arithmetic::VerifierKey { q_m, q_l, q_r, q_o, q_c, q_4, q_arith };
        let logic = logic::VerifierKey { q_c, q_logic };
        let range = range::VerifierKey { q_range };
        let fixed_base = fixed_base::VerifierKey { q_l, q_r, q_fixed_group_add };
        let variable_base = curve_addition::VerifierKey { q_variable_group_add };
        let permutation = permutation::VerifierKey {
            left_sigma,
            right_sigma,
            out_sigma,
            fourth_sigma,
        };
        VerifierKey { n, arithmetic, logic, range, fixed_base, variable_base, permutation }
    }

    /// The size of the circuit: its number of gates, before any padding.
    pub fn n(&self) -> (r: usize)
        ensures
            r == self@.n,
    {
        self.n
    }

    /// The fragment of the arithmetic gates.
    pub fn arithmetic(&self) -> (r: &arithmetic::VerifierKey)
        ensures
            r@ == self@.arithmetic,
    {
        &self.arithmetic
    }

    /// The fragment of the logic gates.
    pub fn logic(&self) -> (r: &logic::VerifierKey)
        ensures
            r@ == self@.logic,
    {
        &self.logic
    }

    /// The fragment of the range gates.
    pub fn range(&self) -> (r: &range::VerifierKey)
        ensures
            r@ == self@.range,
    {
        &self.range
    }

    /// The fragment of the fixed-base scalar multiplication gates.
    pub fn fixed_base(&self) -> (r: &fixed_base::VerifierKey)
        ensures
            r@ == self@.fixed_base,
    {
        &self.fixed_base
    }

    /// The fragment of the variable-base curve addition gates.
    pub fn variable_base(&self) -> (r: &curve_addition::VerifierKey)
        ensures
            r@ == self@.variable_base,
    {
        &self.variable_base
    }

    /// The fragment of the permutation argument.
    pub fn permutation(&self) -> (r: &permutation::VerifierKey)
        ensures
            r@ == self@.permutation,
    {
        &self.permutation
    }

    /// The commitment at place `i` of the protocol order.
    fn commitment(&self, i: usize) -> (r: &Commitment)
        requires
            i < 15,
        ensures
            r@ == self@.commitments()[i as int],
    {
        match i {
            0 => &self.arithmetic.q_m,
            1 => &self.arithmetic.q_l,
            2 => &self.arithmetic.q_r,
            3 => &self.arithmetic.q_o,
            4 => &self.arithmetic.q_c,
            5 => &self.arithmetic.q_4,
            6 => &self.arithmetic.q_arith,
            7 => &self.range.q_range,
            8 => &self.logic.q_logic,
            9 => &self.variable_base.q_variable_group_add,
            10 => &self.fixed_base.q_fixed_group_add,
            11 => &self.permutation.left_sigma,
            12 => &self.permutation.right_sigma,
            13 => &self.permutation.out_sigma,
            _ => &self.permutation.fourth_sigma,
        }
    }

    /// The encoding of this key.
    pub fn to_bytes(&self) -> (r: [u8; VERIFIER_KEY_SIZE])
        ensures
            r@ == self@.encoding(),
            self@.wf(),
    {
        let mut out: Vec<u8> = Vec::new();
        append_le(&mut out, self.n as u64, 8);
        let ghost header = out@;
        let ghost commitments = self@.commitments();
        let mut i: usize = 0;
        proof {
            crate::bytes::lemma_le_encoding_len(self.n as nat, 8);
            assert(commitments.skip(0) =~= commitments);
        }
        while i < NUM_COMMITMENTS
            invariant
                i <= 15,
                commitments == self@.commitments(),
                header + concat(commitments) == out@ + concat(commitments.skip(i as int)),
                out@.len() == 8 + 48 * i,
                forall|j: int| 0 <= j < i ==> is_commitment_encoding(#[trigger] commitments[j]),
            decreases 15 - i,
        {
            let bytes = self.commitment(i).to_bytes();
            proof {
                let left = commitments.skip(i as int);
                assert(left[0] == bytes@);
                assert(left.drop_first() =~= commitments.skip(i + 1));
                assert(out@ + (bytes@ + concat(commitments.skip(i + 1))) =~= (out@ + bytes@)
                    + concat(commitments.skip(i + 1)));
            }
            append_bytes(&mut out, bytes.as_slice());
            i = i + 1;
        }
        proof {
            assert(commitments.skip(15) =~= Seq::<Seq<u8>>::empty());
            assert(out@ + Seq::<u8>::empty() =~= out@);
            assert(header =~= le_encoding(self.n as nat, 8));
            use_type_invariant(self);
        }
        let r: [u8; VERIFIER_KEY_SIZE] = copy_prefix(out.as_slice());
        assert(out@.take(728) =~= out@);
        r
    }

    /// Decodes a key from exactly 728 bytes.
    pub fn from_bytes(buf: &[u8; VERIFIER_KEY_SIZE]) -> (r: Result<VerifierKey, Error>)
        ensures
            match VerifierKeyView::decoding(buf@) {
                Ok(key) => r matches Ok(k) && k@ == key && key.wf(),
                Err(e) => r == Err::<VerifierKey, Error>(e),
            },
    {
        Self::from_slice(buf.as_slice())
    }

    /// Decodes a key from the first 728 bytes of `buf`.
    pub fn from_slice(buf: &[u8]) -> (r: Result<VerifierKey, Error>)
        ensures
            match VerifierKeyView::decoding(buf@) {
                Ok(key) => r matches Ok(k) && k@ == key && key.wf(),
                Err(e) => r == Err::<VerifierKey, Error>(e),
            },
    {
        if buf.len() < VERIFIER_KEY_SIZE {
            return Err(Error::BufferTooShort);
        }
        let n = #[verifier::truncate] (le_read(buf, 8) as usize);
        let mut commitments: Vec<Commitment> = Vec::new();
        let mut i: usize = 0;
        while i < NUM_COMMITMENTS
            invariant
                i <= 15,
                buf@.len() >= 728,
                commitments@.len() == i,
                forall|j: int|
                    0 <= j < i ==> (#[trigger] commitments@[j])@ == commitment_bytes(buf@, j)
                        && is_commitment_encoding(commitment_bytes(buf@, j)),
            decreases 15 - i,
        {
            let chunk = slice_subrange(buf, 8 + COMMITMENT_SIZE * i, 8 + COMMITMENT_SIZE * (i + 1));
            let bytes: [u8; COMMITMENT_SIZE] = copy_prefix(chunk);
            assert(bytes@ =~= commitment_bytes(buf@, i as int));
            match Commitment::from_bytes(&bytes) {
                Err(e) => {
                    assert(!is_commitment_encoding(commitment_bytes(buf@, i as int)));
                    return Err(e);
                },
                Ok(commitment) => {
                    let ghost before = commitments@;
                    commitments.push(commitment);
                    assert forall|j: int| 0 <= j <= i implies (#[trigger] commitments@[j])@
                        == commitment_bytes(buf@, j) && is_commitment_encoding(
                        commitment_bytes(buf@, j),
                    ) by {
                        if j < i {
                            assert(commitments@[j] == before[j]);
                        }
                    }
                },
            }
            i = i + 1;
        }
        let key = Self::from_polynomial_commitments(
            n,
            commitments[0],
            commitments[1],
            commitments[2],
            commitments[3],
            commitments[5],
            commitments[4],
            commitments[6],
            commitments[8],
            commitments[7],
            commitments[10],
            commitments[9],
            commitments[11],
            commitments[12],
            commitments[13],
            commitments[14],
        );
        proof {
            lemma_value_fits(buf@.take(8));
        }
        Ok(key)
    }

    /// Feeds this key into a transcript: the fifteen commitments in the
    /// order of the protocol, each under its label, then the circuit size.
    pub fn seed_transcript(&self, transcript: &mut Transcript)
        ensures
            transcript_state(*final(transcript)) == self@.seeded(transcript_state(*old(transcript))),
    {
        let ghost start = transcript_state(*transcript);
        let mut i: usize = 0;
        while i < NUM_COMMITMENTS
            invariant
                i <= 15,
                transcript_state(*transcript) == absorb_commitments(
                    start,
                    self@.commitments(),
                    i as nat,
                ),
            decreases 15 - i,
        {
            append_commitment(transcript, label(i), self.commitment(i));
            i = i + 1;
        }
        circuit_domain_sep(transcript, self.n as u64);
    }
}

/// The encoding of a verification key has one size, whatever the circuit:
/// eight bytes and forty-eight for each of the fifteen commitments.
pub proof fn lemma_verifier_key_encoding_len(key: VerifierKeyView)
    requires
        key.wf(),
    ensures
        key.encoding().len() == 15 * 48 + 8,
        key.encoding().len() == VERIFIER_KEY_SIZE,
{
    crate::bytes::lemma_le_encoding_len(key.n as nat, 8);
    crate::bytes::lemma_concat_len(key.commitments(), 48);
}

/// Decoding the encoding of a key gives the key back, field for field,
/// whatever follows the encoding.
pub proof fn lemma_verifier_key_round_trip(key: VerifierKeyView, tail: Seq<u8>)
    requires
        key.wf(),
    ensures
        VerifierKeyView::decoding(key.encoding() + tail) == Ok::<VerifierKeyView, Error>(key),
{
    let commitments = key.commitments();
    let header = le_encoding(key.n as nat, 8);
    let s = key.encoding() + tail;
    lemma_verifier_key_encoding_len(key);
    crate::bytes::lemma_le_encoding_len(key.n as nat, 8);
    crate::bytes::lemma_le_bound_values();
    crate::bytes::lemma_le_value_of_encoding(key.n as nat, 8);
    assert(s.take(8) =~= header);
    assert forall|i: int| 0 <= i < 15 implies #[trigger] commitment_bytes(s, i)
        == commitments[i] by {
        crate::bytes::lemma_concat_part(commitments, 48, i);
        assert(commitment_bytes(s, i) =~= concat(commitments).subrange(48 * i, 48 * i + 48));
    }
    let read = Seq::new(15, |i: int| commitment_bytes(s, i));
    assert(read =~= commitments);
    assert(VerifierKeyView::from_commitments(key.n, commitments) == key);
}

/// Whatever bytes a key was decoded from, the fragments that share a
/// selector hold the same value for it, and every commitment is valid.
pub proof fn lemma_decoded_verifier_key_is_well_formed(s: Seq<u8>)
    ensures
        VerifierKeyView::decoding(s) matches Ok(key) ==> key.wf(),
{
    if let Ok(key) = VerifierKeyView::decoding(s) {
        assert forall|i: int| 0 <= i < 15 implies is_commitment_encoding(
            #[trigger] key.commitments()[i],
        ) by {
            assert(key.commitments()[i] == commitment_bytes(s, i));
        }
    }
}

/// A buffer that ends before the fixed size is rejected as too short,
/// whatever it holds.
pub proof fn lemma_short_verifier_key_is_rejected(s: Seq<u8>)
    requires
        s.len() < VERIFIER_KEY_SIZE,
    ensures
        VerifierKeyView::decoding(s) == Err::<VerifierKeyView, Error>(Error::BufferTooShort),
{
}

/// The encoding of a key, cut off at any byte, is rejected as too short.
pub proof fn lemma_truncated_verifier_key_is_rejected(key: VerifierKeyView, len: nat)
    requires
        key.wf(),
        len < key.encoding().len(),
    ensures
        VerifierKeyView::decoding(key.encoding().take(len as int)) == Err::<
            VerifierKeyView,
            Error,
        >(Error::BufferTooShort),
{
    lemma_verifier_key_encoding_len(key);
}

/// What a key makes of a transcript depends on the circuit size and on the
/// fifteen commitments in the order of the protocol, and on nothing else:
/// two keys that agree in these leave two transcripts that were in one state
/// in one state again.
pub proof fn lemma_seeding_is_determined_by_values(
    first: VerifierKeyView,
    second: VerifierKeyView,
    state: Seq<u8>,
)
    requires
        first.n == second.n,
        first.commitments() == second.commitments(),
    ensures
        first.seeded(state) == second.seeded(state),
{
}

/// Eight bytes spell a number that a 64-bit integer holds.
proof fn lemma_value_fits(bytes: Seq<u8>)
    requires
        bytes.len() == 8,
    ensures
        le_value(bytes) <= u64::MAX,
{
    crate::bytes::lemma_le_value_bound(bytes);
    crate::bytes::lemma_le_bound_values();
}

} // verus!
