use dusk_bls12_381::{BlsScalar, G1Affine};
use dusk_bytes::Serializable;
use plonk_keys::commitment::{Commitment, COMMITMENT_SIZE};
use plonk_keys::error::Error;
use plonk_keys::scalar::{append_scalars, read_scalar, read_scalars, Scalar, SCALAR_SIZE};

/// The scalar field's modulus, least significant byte first.
const MODULUS: [u8; 32] = [
    0x01, 0x00, 0x00, 0x00, 0xff, 0xff, 0xff, 0xff, 0xfe, 0x5b, 0xfe, 0xff, 0x02, 0xa4, 0xbd, 0x53,
    0x05, 0xd8, 0xa1, 0x09, 0x08, 0xd8, 0x39, 0x33, 0x48, 0x7d, 0x9d, 0x29, 0x53, 0xa7, 0xed, 0x73,
];

#[test]
fn sizes_of_the_encoded_values() {
    assert_eq!(SCALAR_SIZE, 32);
    assert_eq!(COMMITMENT_SIZE, 48);
    assert_eq!(SCALAR_SIZE, BlsScalar::SIZE);
    assert_eq!(COMMITMENT_SIZE, G1Affine::SIZE);
}

#[test]
fn scalar_below_the_modulus_is_accepted() {
    let zero = [0u8; 32];
    assert_eq!(Scalar::from_bytes(&zero).unwrap().to_bytes(), zero);

    let mut one = [0u8; 32];
    one[0] = 1;
    assert_eq!(Scalar::from_bytes(&one).unwrap().to_bytes(), one);

    // The modulus less one.
    let mut largest = MODULUS;
    largest[0] = 0;
    assert_eq!(Scalar::from_bytes(&largest).unwrap().to_bytes(), largest);
    assert_eq!(largest, (-BlsScalar::one()).to_bytes());
}

#[test]
fn scalar_at_or_above_the_modulus_is_rejected() {
    assert_eq!(Scalar::from_bytes(&MODULUS), Err(Error::InvalidScalar));

    let mut above = MODULUS;
    above[0] = 2;
    assert_eq!(Scalar::from_bytes(&above), Err(Error::InvalidScalar));

    assert_eq!(Scalar::from_bytes(&[0xff; 32]), Err(Error::InvalidScalar));

    // Only the most significant byte is too large.
    let mut high = [0u8; 32];
    high[31] = 0x74;
    assert_eq!(Scalar::from_bytes(&high), Err(Error::InvalidScalar));
}

#[test]
fn scalar_keeps_the_encoding_of_the_field_element() {
    for k in [0u64, 1, 2, 255, 256, u64::MAX] {
        let element = BlsScalar::from(k);
        let scalar = Scalar::from_bytes(&element.to_bytes()).unwrap();
        assert_eq!(scalar.to_bytes(), element.to_bytes());
        assert_eq!(BlsScalar::from_bytes(&scalar.to_bytes()).unwrap(), element);
    }
}

#[test]
fn scalars_are_read_one_after_the_other() {
    let mut bytes = Vec::new();
    bytes.extend_from_slice(&BlsScalar::from(7).to_bytes());
    bytes.extend_from_slice(&BlsScalar::from(9).to_bytes());

    let (first, rest) = read_scalar(&bytes).unwrap();
    assert_eq!(first.to_bytes(), BlsScalar::from(7).to_bytes());
    assert_eq!(rest, &BlsScalar::from(9).to_bytes()[..]);

    let all = read_scalars(&bytes).unwrap();
    assert_eq!(all.len(), 2);
    assert_eq!(all[1].to_bytes(), BlsScalar::from(9).to_bytes());

    let mut out = vec![0xeeu8];
    append_scalars(&mut out, &all);
    assert_eq!(out[0], 0xee);
    assert_eq!(&out[1..], &bytes[..]);

    assert_eq!(read_scalars(&[]).unwrap().len(), 0);
}

#[test]
fn scalars_that_cannot_be_read_give_the_first_error() {
    let seven = BlsScalar::from(7).to_bytes();

    // A scalar cut short.
    assert_eq!(read_scalar(&seven[..31]), Err(Error::BufferTooShort));
    assert_eq!(read_scalars(&seven[..31]), Err(Error::BufferTooShort));

    // A good scalar, then a bad one, then a partial one: the bad one decides.
    let mut bytes = Vec::new();
    bytes.extend_from_slice(&seven);
    bytes.extend_from_slice(&[0xff; 32]);
    bytes.extend_from_slice(&[0u8; 5]);
    assert_eq!(read_scalars(&bytes), Err(Error::InvalidScalar));

    // A good scalar, then a partial one.
    let mut bytes = Vec::new();
    bytes.extend_from_slice(&seven);
    bytes.extend_from_slice(&[0u8; 5]);
    assert_eq!(read_scalars(&bytes), Err(Error::BufferTooShort));
}

#[test]
fn commitment_of_a_group_element_is_accepted() {
    let generator = G1Affine::generator().to_bytes();
    assert_eq!(Commitment::from_bytes(&generator).unwrap().to_bytes(), generator);

    let identity = G1Affine::identity().to_bytes();
    assert_eq!(Commitment::from_bytes(&identity).unwrap().to_bytes(), identity);
}

#[test]
fn commitment_that_is_no_group_element_is_rejected() {
    // The compression flag is not set.
    assert_eq!(Commitment::from_bytes(&[0u8; 48]), Err(Error::InvalidCommitment));

    // The point at infinity with a coordinate that is not zero.
    let mut bytes = G1Affine::identity().to_bytes();
    bytes[47] = 1;
    assert_eq!(Commitment::from_bytes(&bytes), Err(Error::InvalidCommitment));

    // A coordinate that is not reduced.
    let mut bytes = [0xffu8; 48];
    bytes[0] = 0x9f;
    assert_eq!(Commitment::from_bytes(&bytes), Err(Error::InvalidCommitment));
}
