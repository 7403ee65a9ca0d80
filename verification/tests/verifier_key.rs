use dusk_bls12_381::{BlsScalar, G1Affine, G1Projective};
use dusk_bytes::Serializable;
use merlin::Transcript;
use plonk_keys::commitment::Commitment;
use plonk_keys::error::Error;
use plonk_keys::widget::verifier_key::{NUM_COMMITMENTS, VERIFIER_KEY_SIZE};
use plonk_keys::widget::VerifierKey;

fn generator() -> Commitment {
    Commitment::from_bytes(&G1Affine::generator().to_bytes()).unwrap()
}

/// The generator multiplied by `k`.
fn point(k: u64) -> G1Affine {
    G1Affine::from(G1Projective::generator() * BlsScalar::from(k))
}

fn commitment(k: u64) -> Commitment {
    Commitment::from_bytes(&point(k).to_bytes()).unwrap()
}

fn generator_key(n: usize) -> VerifierKey {
    let g = generator();
    VerifierKey::from_polynomial_commitments(n, g, g, g, g, g, g, g, g, g, g, g, g, g, g, g)
}

/// A key whose commitments are all different: the parameter at place `i` of
/// the constructor is the generator multiplied by `i + 1`.
fn distinct_key(n: usize) -> VerifierKey {
    VerifierKey::from_polynomial_commitments(
        n,
        commitment(1),
        commitment(2),
        commitment(3),
        commitment(4),
        commitment(5),
        commitment(6),
        commitment(7),
        commitment(8),
        commitment(9),
        commitment(10),
        commitment(11),
        commitment(12),
        commitment(13),
        commitment(14),
        commitment(15),
    )
}

fn challenge(transcript: &mut Transcript) -> [u8; 64] {
    let mut out = [0u8; 64];
    transcript.challenge_bytes(b"challenge", &mut out);
    out
}

#[test]
fn test_serialise_deserialise_verifier_key() {
    let n = 2usize.pow(5);

    let verifier_key = generator_key(n);

    let verifier_key_bytes = verifier_key.to_bytes();
    let got = VerifierKey::from_bytes(&verifier_key_bytes).unwrap();

    assert_eq!(got, verifier_key);
}

#[test]
fn verifier_key_encoding_has_the_fixed_size_and_starts_with_n() {
    let bytes = generator_key(32).to_bytes();
    assert_eq!(bytes.len(), 8 + 15 * 48);
    assert_eq!(bytes.len(), VERIFIER_KEY_SIZE);
    assert_eq!(NUM_COMMITMENTS, 15);
    assert_eq!(&bytes[..8], &[32u8, 0, 0, 0, 0, 0, 0, 0]);
    let g = G1Affine::generator().to_bytes();
    for i in 0..15 {
        assert_eq!(&bytes[8 + 48 * i..56 + 48 * i], &g[..]);
    }
    let got = VerifierKey::from_bytes(&bytes).unwrap();
    assert_eq!(got, generator_key(32));
}

#[test]
fn verifier_key_size_does_not_depend_on_n() {
    for n in [0usize, 1, 32, 1 << 20, usize::MAX] {
        let key = distinct_key(n);
        let bytes = key.to_bytes();
        assert_eq!(bytes.len(), 728);
        assert_eq!(&bytes[..8], &(n as u64).to_le_bytes());
        assert_eq!(VerifierKey::from_bytes(&bytes).unwrap().n(), n);
    }
}

#[test]
fn verifier_key_one_byte_short_is_rejected() {
    let bytes = generator_key(32).to_bytes();
    let got = VerifierKey::from_slice(&bytes[..bytes.len() - 1]);
    assert_eq!(got, Err(Error::BufferTooShort));
}

#[test]
fn verifier_key_cut_at_any_byte_is_rejected() {
    let bytes = distinct_key(7).to_bytes();
    for len in 0..bytes.len() {
        assert_eq!(VerifierKey::from_slice(&bytes[..len]), Err(Error::BufferTooShort));
    }
    assert!(VerifierKey::from_slice(&bytes[..]).is_ok());
}

#[test]
fn verifier_key_is_read_from_the_front_of_a_longer_buffer() {
    let key = distinct_key(9);
    let mut bytes = key.to_bytes().to_vec();
    bytes.extend_from_slice(&[0xaa; 5]);
    assert_eq!(VerifierKey::from_slice(&bytes), Ok(key));
}

#[test]
fn verifier_key_with_a_bad_commitment_is_rejected() {
    for place in 0..15 {
        let mut bytes = distinct_key(3).to_bytes();
        for b in bytes[8 + 48 * place..56 + 48 * place].iter_mut() {
            *b = 0;
        }
        assert_eq!(VerifierKey::from_bytes(&bytes), Err(Error::InvalidCommitment));
    }
}

#[test]
fn verifier_key_is_encoded_in_the_order_of_the_protocol() {
    // Constructor places: q_m 1, q_l 2, q_r 3, q_o 4, q_4 5, q_c 6, q_arith 7,
    // q_logic 8, q_range 9, q_fixed_group_add 10, q_variable_group_add 11,
    // left 12, right 13, out 14, fourth 15.
    let bytes = distinct_key(5).to_bytes();
    let expected: [u64; 15] = [1, 2, 3, 4, 6, 5, 7, 9, 8, 11, 10, 12, 13, 14, 15];
    for (i, k) in expected.iter().enumerate() {
        assert_eq!(&bytes[8 + 48 * i..56 + 48 * i], &point(*k).to_bytes()[..]);
    }
}

#[test]
fn verifier_key_fragments_hold_what_was_given() {
    let key = distinct_key(5);
    assert_eq!(key.n(), 5);
    assert_eq!(key.arithmetic().q_m, commitment(1));
    assert_eq!(key.arithmetic().q_l, commitment(2));
    assert_eq!(key.arithmetic().q_r, commitment(3));
    assert_eq!(key.arithmetic().q_o, commitment(4));
    assert_eq!(key.arithmetic().q_4, commitment(5));
    assert_eq!(key.arithmetic().q_c, commitment(6));
    assert_eq!(key.arithmetic().q_arith, commitment(7));
    assert_eq!(key.logic().q_logic, commitment(8));
    assert_eq!(key.logic().q_c, commitment(6));
    assert_eq!(key.range().q_range, commitment(9));
    assert_eq!(key.fixed_base().q_fixed_group_add, commitment(10));
    assert_eq!(key.fixed_base().q_l, commitment(2));
    assert_eq!(key.fixed_base().q_r, commitment(3));
    assert_eq!(key.variable_base().q_variable_group_add, commitment(11));
    assert_eq!(key.permutation().left_sigma, commitment(12));
    assert_eq!(key.permutation().right_sigma, commitment(13));
    assert_eq!(key.permutation().out_sigma, commitment(14));
    assert_eq!(key.permutation().fourth_sigma, commitment(15));
}

#[test]
fn shared_selectors_agree_after_a_round_trip() {
    let key = distinct_key(64);
    let got = VerifierKey::from_bytes(&key.to_bytes()).unwrap();
    assert_eq!(got, key);
    assert_eq!(got.fixed_base().q_l.to_bytes(), got.arithmetic().q_l.to_bytes());
    assert_eq!(got.fixed_base().q_r.to_bytes(), got.arithmetic().q_r.to_bytes());
    assert_eq!(got.logic().q_c.to_bytes(), got.arithmetic().q_c.to_bytes());
    assert_eq!(got.arithmetic().q_l.to_bytes(), point(2).to_bytes());
}

#[test]
fn verifier_key_encoding_is_deterministic() {
    let key = distinct_key(11);
    assert_eq!(key.to_bytes(), key.to_bytes());
    assert_eq!(key.to_bytes(), distinct_key(11).to_bytes());
}

#[test]
fn seeding_gives_equal_challenges_for_equal_keys() {
    let built = distinct_key(32);
    let decoded = VerifierKey::from_bytes(&built.to_bytes()).unwrap();

    let mut first = Transcript::new(b"plonk");
    let mut second = Transcript::new(b"plonk");
    built.seed_transcript(&mut first);
    decoded.seed_transcript(&mut second);

    assert_eq!(challenge(&mut first), challenge(&mut second));
}

#[test]
fn seeding_appends_the_commitments_under_their_labels_and_then_the_size() {
    let key = distinct_key(32);
    let mut seeded = Transcript::new(b"plonk");
    key.seed_transcript(&mut seeded);

    let mut by_hand = Transcript::new(b"plonk");
    by_hand.append_message(b"q_m", &point(1).to_bytes());
    by_hand.append_message(b"q_l", &point(2).to_bytes());
    by_hand.append_message(b"q_r", &point(3).to_bytes());
    by_hand.append_message(b"q_o", &point(4).to_bytes());
    by_hand.append_message(b"q_c", &point(6).to_bytes());
    by_hand.append_message(b"q_4", &point(5).to_bytes());
    by_hand.append_message(b"q_arith", &point(7).to_bytes());
    by_hand.append_message(b"q_range", &point(9).to_bytes());
    by_hand.append_message(b"q_logic", &point(8).to_bytes());
    by_hand.append_message(b"q_variable_group_add", &point(11).to_bytes());
    by_hand.append_message(b"q_fixed_group_add", &point(10).to_bytes());
    by_hand.append_message(b"left_sigma", &point(12).to_bytes());
    by_hand.append_message(b"right_sigma", &point(13).to_bytes());
    by_hand.append_message(b"out_sigma", &point(14).to_bytes());
    by_hand.append_message(b"fourth_sigma", &point(15).to_bytes());
    by_hand.append_message(b"dom-sep", b"circuit_size");
    by_hand.append_u64(b"n", 32);

    assert_eq!(challenge(&mut seeded), challenge(&mut by_hand));
}

#[test]
fn seeding_changes_the_transcript_and_tells_keys_apart() {
    let mut untouched = Transcript::new(b"plonk");
    let mut first = Transcript::new(b"plonk");
    let mut second = Transcript::new(b"plonk");
    let mut third = Transcript::new(b"plonk");
    distinct_key(32).seed_transcript(&mut first);
    distinct_key(33).seed_transcript(&mut second);
    generator_key(32).seed_transcript(&mut third);

    let plain = challenge(&mut untouched);
    let a = challenge(&mut first);
    let b = challenge(&mut second);
    let c = challenge(&mut third);
    assert_ne!(a, plain);
    assert_ne!(a, b);
    assert_ne!(a, c);
}
