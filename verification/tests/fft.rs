use dusk_bls12_381::BlsScalar;
use plonk_keys::bytes::{append_bytes, read_u32, read_u64};
use plonk_keys::error::Error;
use plonk_keys::fft::domain::{EvaluationDomain, DOMAIN_SIZE};
use plonk_keys::fft::evaluations::Evaluations;
use plonk_keys::fft::polynomial::Polynomial;
use plonk_keys::scalar::Scalar;
use plonk_keys::table::{WitnessTable3Arity, WitnessTable4Arity};
use plonk_keys::widget::pair::{clone_pair, read_block, read_pair, read_pairs, write_pair};

fn scalar(k: u64) -> Scalar {
    Scalar::from_bytes(&BlsScalar::from(k).to_bytes()).unwrap()
}

fn small_domain() -> EvaluationDomain {
    EvaluationDomain {
        size: 0x0102_0304_0506_0708,
        log_size_of_group: 0x0a0b_0c0d,
        size_as_field_element: scalar(1),
        size_inv: scalar(2),
        group_gen: scalar(3),
        group_gen_inv: scalar(4),
        generator_inv: scalar(5),
    }
}

#[test]
fn bytes_are_appended_at_the_end() {
    let mut out = vec![1u8];
    append_bytes(&mut out, &[2, 3]);
    append_bytes(&mut out, &[]);
    assert_eq!(out, vec![1, 2, 3]);
}

#[test]
fn integers_are_read_least_significant_byte_first() {
    let bytes = [8u8, 7, 6, 5, 4, 3, 2, 1, 0xaa, 0xbb];
    assert_eq!(read_u64(&bytes), Ok((0x0102_0304_0506_0708, &[0xaau8, 0xbb][..])));
    assert_eq!(read_u32(&bytes), Ok((0x0506_0708, &bytes[4..])));
    assert_eq!(read_u64(&[0xff; 8]), Ok((u64::MAX, &[][..])));
    assert_eq!(read_u32(&[0xff; 4]), Ok((u32::MAX, &[][..])));
    assert_eq!(read_u64(&bytes[..7]), Err(Error::BufferTooShort));
    assert_eq!(read_u32(&bytes[..3]), Err(Error::BufferTooShort));
}

#[test]
fn domain_is_written_field_by_field() {
    assert_eq!(DOMAIN_SIZE, 8 + 4 + 5 * 32);
    let domain = small_domain();
    let mut out = Vec::new();
    domain.write(&mut out);
    assert_eq!(out.len(), DOMAIN_SIZE);
    assert_eq!(&out[..8], &[8, 7, 6, 5, 4, 3, 2, 1]);
    assert_eq!(&out[8..12], &[0x0d, 0x0c, 0x0b, 0x0a]);
    for i in 0..5 {
        assert_eq!(&out[12 + 32 * i..44 + 32 * i], &BlsScalar::from(i as u64 + 1).to_bytes());
    }

    out.push(0x77);
    let (read, rest) = EvaluationDomain::read(&out).unwrap();
    assert_eq!(read, domain);
    assert_eq!(rest, &[0x77]);
}

#[test]
fn domain_that_cannot_be_read_is_rejected() {
    let mut out = Vec::new();
    small_domain().write(&mut out);
    assert_eq!(EvaluationDomain::read(&out[..171]), Err(Error::BufferTooShort));
    assert_eq!(EvaluationDomain::read(&[]), Err(Error::BufferTooShort));
    out[12 + 32 * 3..12 + 32 * 4].copy_from_slice(&[0xff; 32]);
    assert_eq!(EvaluationDomain::read(&out), Err(Error::InvalidScalar));
    // With too few bytes the length decides, whatever the bytes hold.
    assert_eq!(EvaluationDomain::read(&out[..171]), Err(Error::BufferTooShort));
}

#[test]
fn polynomial_round_trips() {
    let polynomial = Polynomial { coeffs: vec![scalar(5), scalar(0), scalar(7)] };
    assert_eq!(polynomial.len(), 3);
    let bytes = polynomial.to_var_bytes();
    assert_eq!(bytes.len(), 96);
    assert_eq!(&bytes[..32], &BlsScalar::from(5).to_bytes());
    assert_eq!(&bytes[64..], &BlsScalar::from(7).to_bytes());
    assert_eq!(Polynomial::from_slice(&bytes), Ok(polynomial.clone()));
    assert_eq!(polynomial.clone(), polynomial);

    let empty = Polynomial::from_slice(&[]).unwrap();
    assert_eq!(empty.len(), 0);
    assert_eq!(empty.to_var_bytes(), Vec::<u8>::new());
}

#[test]
fn polynomial_that_cannot_be_read_is_rejected() {
    let bytes = Polynomial { coeffs: vec![scalar(5), scalar(6)] }.to_var_bytes();
    assert_eq!(Polynomial::from_slice(&bytes[..63]), Err(Error::BufferTooShort));
    let mut bad = bytes.clone();
    bad[32..].copy_from_slice(&[0xff; 32]);
    assert_eq!(Polynomial::from_slice(&bad), Err(Error::InvalidScalar));
}

#[test]
fn evaluations_round_trip() {
    let evaluations = Evaluations::from_vec_and_domain(vec![scalar(11), scalar(12)], small_domain());
    assert_eq!(evaluations.evals.len(), 2);
    assert_eq!(evaluations.domain, small_domain());
    let bytes = evaluations.to_var_bytes();
    assert_eq!(bytes.len(), 172 + 64);
    let mut domain = Vec::new();
    small_domain().write(&mut domain);
    assert_eq!(&bytes[..172], &domain[..]);
    assert_eq!(&bytes[172..204], &BlsScalar::from(11).to_bytes());
    assert_eq!(Evaluations::from_slice(&bytes), Ok(evaluations.clone()));
    assert_eq!(evaluations.clone(), evaluations);

    let none = Evaluations::from_vec_and_domain(Vec::new(), small_domain());
    assert_eq!(none.to_var_bytes(), domain);
    assert_eq!(Evaluations::from_slice(&domain), Ok(none));
}

#[test]
fn evaluations_that_cannot_be_read_are_rejected() {
    let bytes =
        Evaluations::from_vec_and_domain(vec![scalar(11), scalar(12)], small_domain()).to_var_bytes();
    assert_eq!(Evaluations::from_slice(&bytes[..100]), Err(Error::BufferTooShort));
    assert_eq!(Evaluations::from_slice(&bytes[..bytes.len() - 1]), Err(Error::BufferTooShort));
    let mut bad = bytes.clone();
    bad[172..204].copy_from_slice(&[0xff; 32]);
    assert_eq!(Evaluations::from_slice(&bad), Err(Error::InvalidScalar));
}

#[test]
fn pair_is_a_count_the_coefficients_and_a_table() {
    let pair = (
        Polynomial { coeffs: vec![scalar(5), scalar(6)] },
        Evaluations::from_vec_and_domain(vec![scalar(11)], small_domain()),
    );
    let mut out = vec![0x55u8];
    write_pair(&mut out, &pair);
    assert_eq!(out.len(), 1 + 8 + 64 + 172 + 32);
    assert_eq!(&out[1..9], &2u64.to_le_bytes());
    assert_eq!(&out[9..73], &pair.0.to_var_bytes()[..]);
    assert_eq!(&out[73..], &pair.1.to_var_bytes()[..]);

    out.push(0x66);
    let (read, rest) = read_pair(&out[1..], 172 + 32).unwrap();
    assert_eq!(read, pair);
    assert_eq!(rest, &[0x66]);
    assert_eq!(clone_pair(&pair), pair);

    let (table, rest) = read_block(&out[73..], 172 + 32).unwrap();
    assert_eq!(table, pair.1);
    assert_eq!(rest, &[0x66]);

    let mut two = Vec::new();
    write_pair(&mut two, &pair);
    write_pair(&mut two, &pair);
    let (pairs, rest) = read_pairs(&two, 172 + 32, 2).unwrap();
    assert_eq!(pairs, vec![pair.clone(), pair.clone()]);
    assert_eq!(rest.len(), 0);
    assert_eq!(read_pairs(&two, 172 + 32, 3), Err(Error::BufferTooShort));
    let (none, rest) = read_pairs(&two, 172 + 32, 0).unwrap();
    assert_eq!(none.len(), 0);
    assert_eq!(rest, &two[..]);
}

#[test]
fn pair_read_at_another_size_is_not_the_pair() {
    let pair = (
        Polynomial { coeffs: vec![scalar(5)] },
        Evaluations::from_vec_and_domain(vec![scalar(11), scalar(12)], small_domain()),
    );
    let mut out = Vec::new();
    write_pair(&mut out, &pair);
    // Read with a table of one value: the second value is left over.
    let (read, rest) = read_pair(&out, 172 + 32).unwrap();
    assert_eq!(read.0, pair.0);
    assert_eq!(read.1.evals.len(), 1);
    assert_eq!(rest.len(), 32);
    // Read with a table of three values: the buffer is too short.
    assert_eq!(read_pair(&out, 172 + 96), Err(Error::BufferTooShort));
}

#[test]
fn lookup_tables_hold_rows() {
    let three = WitnessTable3Arity(vec![[scalar(1), scalar(2), scalar(3)]]);
    let four = WitnessTable4Arity(vec![[scalar(1), scalar(2), scalar(3), scalar(4)]; 2]);
    assert_eq!(three.0.len(), 1);
    assert_eq!(three.0[0][2], scalar(3));
    assert_eq!(four.0.len(), 2);
    assert_eq!(four.0[1][3], scalar(4));
}
