use dusk_bls12_381::{BlsScalar, GENERATOR, ROOT_OF_UNITY, TWO_ADACITY};
use plonk_keys::error::Error;
use plonk_keys::fft::domain::EvaluationDomain;
use plonk_keys::fft::evaluations::Evaluations;
use plonk_keys::fft::polynomial::Polynomial;
use plonk_keys::scalar::Scalar;
use plonk_keys::widget::ProverKey;

/// A small generator of pseudo-random numbers (xorshift), so that the tests
/// are the same on every run.
struct Source(u64);

impl Source {
    fn next(&mut self) -> u64 {
        self.0 ^= self.0 << 13;
        self.0 ^= self.0 >> 7;
        self.0 ^= self.0 << 17;
        self.0
    }

    fn scalar(&mut self) -> Scalar {
        let mut wide = [0u8; 64];
        for chunk in wide.chunks_mut(8) {
            chunk.copy_from_slice(&self.next().to_le_bytes());
        }
        scalar(&BlsScalar::from_bytes_wide(&wide))
    }

    fn scalars(&mut self, count: usize) -> Vec<Scalar> {
        (0..count).map(|_| self.scalar()).collect()
    }
}

fn scalar(element: &BlsScalar) -> Scalar {
    Scalar::from_bytes(&element.to_bytes()).unwrap()
}

/// The domain of the least power of two that holds `num_coeffs` points.
fn domain(num_coeffs: usize) -> EvaluationDomain {
    let size = num_coeffs.next_power_of_two() as u64;
    let log_size_of_group = size.trailing_zeros();
    assert!(log_size_of_group <= TWO_ADACITY);

    let mut group_gen = ROOT_OF_UNITY;
    for _ in log_size_of_group..TWO_ADACITY {
        group_gen = group_gen.square();
    }
    let size_as_field_element = BlsScalar::from(size);

    EvaluationDomain {
        size,
        log_size_of_group,
        size_as_field_element: scalar(&size_as_field_element),
        size_inv: scalar(&size_as_field_element.invert().unwrap()),
        group_gen: scalar(&group_gen),
        group_gen_inv: scalar(&group_gen.invert().unwrap()),
        generator_inv: scalar(&GENERATOR.invert().unwrap()),
    }
}

fn rand_evaluations(source: &mut Source, n: usize) -> Evaluations {
    let values = source.scalars(4 * n);
    Evaluations::from_vec_and_domain(values, domain(4 * n))
}

fn rand_poly_eval(source: &mut Source, n: usize) -> (Polynomial, Evaluations) {
    let polynomial = Polynomial { coeffs: source.scalars(n) };
    (polynomial, rand_evaluations(source, n))
}

/// A key whose polynomial at place `i` of the constructor has `degrees[i]`
/// coefficients, and whose tables have `4 * n` values.
fn rand_key(source: &mut Source, n: usize, degrees: [usize; 15]) -> ProverKey {
    let mut pairs: Vec<(Polynomial, Evaluations)> = degrees
        .iter()
        .map(|&d| (Polynomial { coeffs: source.scalars(d) }, rand_evaluations(source, n)))
        .collect();
    pairs.reverse();
    let mut next = || pairs.pop().unwrap();
    let (q_m, q_l, q_r, q_o, q_4) = (next(), next(), next(), next(), next());
    let (q_c, q_arith, q_logic, q_range) = (next(), next(), next(), next());
    let (q_fixed_group_add, q_variable_group_add) = (next(), next());
    let (left_sigma, right_sigma, out_sigma, fourth_sigma) = (next(), next(), next(), next());
    let linear_evaluations = rand_evaluations(source, n);
    let v_h_coset_4n = rand_evaluations(source, n);
    ProverKey::from_polynomials_and_evaluations(
        n,
        q_m,
        q_l,
        q_r,
        q_o,
        q_4,
        q_c,
        q_arith,
        q_logic,
        q_range,
        q_fixed_group_add,
        q_variable_group_add,
        left_sigma,
        right_sigma,
        out_sigma,
        fourth_sigma,
        linear_evaluations,
        v_h_coset_4n,
    )
}

/// The length that the layout gives to a key: sixteen bytes of header; for
/// each pair eight bytes, the coefficients and a table; two tables more.
fn expected_len(degrees: &[usize; 15], values: usize) -> usize {
    let table = 172 + 32 * values;
    16 + degrees.iter().map(|d| 8 + 32 * d + table).sum::<usize>() + 2 * table
}

#[test]
fn test_serialise_deserialise_prover_key() {
    let mut source = Source(0x9e37_79b9_7f4a_7c15);
    let n = 1 << 11;

    let q_m = rand_poly_eval(&mut source, n);
    let q_l = rand_poly_eval(&mut source, n);
    let q_r = rand_poly_eval(&mut source, n);
    let q_o = rand_poly_eval(&mut source, n);
    let q_c = rand_poly_eval(&mut source, n);
    let q_4 = rand_poly_eval(&mut source, n);
    let q_arith = rand_poly_eval(&mut source, n);

    let q_logic = rand_poly_eval(&mut source, n);

    let q_range = rand_poly_eval(&mut source, n);

    let q_fixed_group_add = rand_poly_eval(&mut source, n);

    let q_variable_group_add = rand_poly_eval(&mut source, n);

    let left_sigma = rand_poly_eval(&mut source, n);
    let right_sigma = rand_poly_eval(&mut source, n);
    let out_sigma = rand_poly_eval(&mut source, n);
    let fourth_sigma = rand_poly_eval(&mut source, n);
    let linear_evaluations = rand_evaluations(&mut source, n);

    let v_h_coset_4n = rand_evaluations(&mut source, n);

    let prover_key = ProverKey::from_polynomials_and_evaluations(
        n,
        q_m,
        q_l,
        q_r,
        q_o,
        q_4,
        q_c,
        q_arith,
        q_logic,
        q_range,
        q_fixed_group_add,
        q_variable_group_add,
        left_sigma,
        right_sigma,
        out_sigma,
        fourth_sigma,
        linear_evaluations,
        v_h_coset_4n,
    );

    let prover_key_bytes = prover_key.to_var_bytes();
    let pk = ProverKey::from_slice(&prover_key_bytes).unwrap();

    assert_eq!(pk, prover_key);
    assert_eq!(pk.to_var_bytes(), prover_key.to_var_bytes());
    assert_eq!(prover_key_bytes.len(), expected_len(&[n; 15], 4 * n));
    assert_eq!(prover_key_bytes.len(), 16 + 15 * (8 + 32 * n) + 17 * (172 + 32 * 4 * n));
}

#[test]
fn prover_key_counts() {
    assert_eq!(ProverKey::num_polys(), 15);
    assert_eq!(ProverKey::num_evals(), 17);
}

#[test]
fn prover_key_header_holds_n_and_the_size_of_a_table() {
    let mut source = Source(1);
    let key = rand_key(&mut source, 2, [3; 15]);
    let bytes = key.to_var_bytes();
    assert_eq!(&bytes[..8], &2u64.to_le_bytes());
    assert_eq!(&bytes[8..16], &((172 + 32 * 8) as u64).to_le_bytes());
    // The first pair: its count, its coefficients, its table.
    assert_eq!(&bytes[16..24], &3u64.to_le_bytes());
    assert_eq!(&bytes[24..56], &key.arithmetic().q_m.0.coeffs[0].to_bytes());
    let table = key.arithmetic().q_m.1.to_var_bytes();
    assert_eq!(table.len(), 172 + 32 * 8);
    assert_eq!(&bytes[24 + 96..24 + 96 + table.len()], &table[..]);
    // The last table is that of the vanishing polynomial.
    let last = key.v_h_coset_4n().to_var_bytes();
    assert_eq!(&bytes[bytes.len() - last.len()..], &last[..]);
}

#[test]
fn prover_key_with_polynomials_of_different_lengths_round_trips() {
    let mut source = Source(2);
    let degrees = [0, 1, 2, 3, 4, 5, 6, 7, 8, 9, 10, 11, 12, 13, 14];
    let key = rand_key(&mut source, 2, degrees);
    let bytes = key.to_var_bytes();
    assert_eq!(bytes.len(), expected_len(&degrees, 8));
    assert_eq!(ProverKey::from_slice(&bytes), Ok(key));
}

#[test]
fn prover_key_with_empty_polynomials_round_trips() {
    let mut source = Source(3);
    let key = rand_key(&mut source, 1, [0; 15]);
    let bytes = key.to_var_bytes();
    assert_eq!(bytes.len(), 16 + 15 * 8 + 17 * (172 + 32 * 4));
    // The count of the first pair is zero and its table follows at once.
    assert_eq!(&bytes[16..24], &[0u8; 8]);
    let got = ProverKey::from_slice(&bytes).unwrap();
    assert_eq!(got.arithmetic().q_m.0.coeffs.len(), 0);
    assert_eq!(got.arithmetic().q_m.1.evals.len(), 4);
    assert_eq!(got, key);
}

#[test]
fn prover_key_is_read_in_the_order_of_the_protocol() {
    // The polynomial at place `i` of the constructor has `i + 1`
    // coefficients, which tells the pairs apart in the encoding.
    let mut source = Source(4);
    let degrees = [1, 2, 3, 4, 5, 6, 7, 8, 9, 10, 11, 12, 13, 14, 15];
    let key = rand_key(&mut source, 1, degrees);
    let bytes = key.to_var_bytes();
    let table = 172 + 32 * 4;
    // Constructor places: q_m, q_l, q_r, q_o, q_4, q_c, q_arith, q_logic,
    // q_range, q_fixed_group_add, q_variable_group_add, the four sigmas.
    let expected: [u64; 15] = [1, 2, 3, 4, 6, 5, 7, 9, 8, 11, 10, 12, 13, 14, 15];
    let mut at = 16;
    for count in expected {
        assert_eq!(&bytes[at..at + 8], &count.to_le_bytes());
        at += 8 + 32 * count as usize + table;
    }
    assert_eq!(at + 2 * table, bytes.len());
}

#[test]
fn prover_key_fragments_share_their_selectors() {
    let mut source = Source(5);
    let key = rand_key(&mut source, 1, [2; 15]);
    let got = ProverKey::from_slice(&key.to_var_bytes()).unwrap();
    for k in [&key, &got] {
        assert_eq!(k.logic().q_c, k.arithmetic().q_c);
        assert_eq!(k.fixed_base().q_c, k.arithmetic().q_c);
        assert_eq!(k.fixed_base().q_l, k.arithmetic().q_l);
        assert_eq!(k.fixed_base().q_r, k.arithmetic().q_r);
    }
    assert_eq!(got.n(), 1);
    assert_eq!(got.range(), key.range());
    assert_eq!(got.variable_base(), key.variable_base());
    assert_eq!(got.permutation(), key.permutation());
    assert_eq!(got.v_h_coset_4n(), key.v_h_coset_4n());
    assert_eq!(got.clone(), key);
}

#[test]
fn prover_key_cut_at_any_byte_is_rejected() {
    let mut source = Source(6);
    let key = rand_key(&mut source, 1, [2, 0, 1, 2, 0, 1, 2, 0, 1, 2, 0, 1, 2, 0, 1]);
    let bytes = key.to_var_bytes();
    for len in 0..bytes.len() {
        assert_eq!(ProverKey::from_slice(&bytes[..len]), Err(Error::BufferTooShort));
    }
    assert_eq!(ProverKey::from_slice(&bytes), Ok(key));
}

#[test]
fn prover_key_is_read_from_the_front_of_a_longer_buffer() {
    let mut source = Source(7);
    let key = rand_key(&mut source, 1, [1; 15]);
    let mut bytes = key.to_var_bytes();
    bytes.extend_from_slice(&[0xff; 40]);
    assert_eq!(ProverKey::from_slice(&bytes), Ok(key));
}

#[test]
fn prover_key_with_a_bad_scalar_is_rejected() {
    let mut source = Source(8);
    let key = rand_key(&mut source, 1, [1; 15]);
    let bytes = key.to_var_bytes();

    // The coefficient of the first polynomial.
    let mut bad = bytes.clone();
    bad[24..56].copy_from_slice(&[0xff; 32]);
    assert_eq!(ProverKey::from_slice(&bad), Err(Error::InvalidScalar));

    // A field element of the first table's domain.
    let mut bad = bytes.clone();
    bad[56 + 12..56 + 44].copy_from_slice(&[0xff; 32]);
    assert_eq!(ProverKey::from_slice(&bad), Err(Error::InvalidScalar));

    // The last value of the last table.
    let mut bad = bytes.clone();
    let len = bad.len();
    bad[len - 32..].copy_from_slice(&[0xff; 32]);
    assert_eq!(ProverKey::from_slice(&bad), Err(Error::InvalidScalar));
}

#[test]
fn prover_key_with_a_length_beyond_the_buffer_is_rejected() {
    let mut source = Source(9);
    let key = rand_key(&mut source, 1, [1; 15]);
    let bytes = key.to_var_bytes();

    // A count of coefficients that the buffer cannot hold.
    let mut bad = bytes.clone();
    bad[16..24].copy_from_slice(&u64::MAX.to_le_bytes());
    assert_eq!(ProverKey::from_slice(&bad), Err(Error::BufferTooShort));

    // A size of the tables that the buffer cannot hold.
    let mut bad = bytes.clone();
    bad[8..16].copy_from_slice(&u64::MAX.to_le_bytes());
    assert_eq!(ProverKey::from_slice(&bad), Err(Error::BufferTooShort));

    // A size of the tables under that of a domain.
    let mut bad = bytes.clone();
    bad[8..16].copy_from_slice(&100u64.to_le_bytes());
    assert_eq!(ProverKey::from_slice(&bad), Err(Error::BufferTooShort));

    // A size of the tables that cuts a value in two.
    let mut bad = bytes.clone();
    bad[8..16].copy_from_slice(&((172 + 32 * 4 - 1) as u64).to_le_bytes());
    assert_eq!(ProverKey::from_slice(&bad), Err(Error::BufferTooShort));
}

#[test]
fn prover_key_encoding_is_deterministic() {
    let mut source = Source(10);
    let key = rand_key(&mut source, 2, [4; 15]);
    assert_eq!(key.to_var_bytes(), key.to_var_bytes());
    assert_eq!(key.to_var_bytes(), key.clone().to_var_bytes());
}
