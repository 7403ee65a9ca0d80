//! The proving key of a circuit: its size, its selector and sigma polynomials
//! with their evaluations over the extended domain, and the evaluations of
//! the vanishing polynomial.

use crate::bytes::{append_bytes, append_le, concat, le_encoding, parse_u64, read_u64};
use crate::bytes::{lemma_le_encoding_len, lemma_parse_u64_of_encoding, lemma_parse_u64_prefix};
use crate::error::Error;
use crate::fft::evaluations::{lemma_evaluations_encoding_len, Evaluations, EvaluationsView};
use crate::fft::polynomial::Polynomial;
use crate::widget::arithmetic;
use crate::widget::ecc::curve_addition;
use crate::widget::ecc::scalar_mul::fixed_base;
use crate::widget::logic;
use crate::widget::pair::{clone_pair, pair_encoding, pair_encodings, pair_views, pair_wf};
use crate::widget::pair::PairView;
use crate::widget::pair::{coefficient_count, lemma_pair_encodings_len, lemma_pairs_len_formula};
use crate::widget::pair::{lemma_parse_block_of_encoding, lemma_parse_pairs_of_encodings};
use crate::widget::pair::{lemma_parse_block_prefix, lemma_parse_pairs_prefix};
use crate::widget::pair::{lemma_parsed_block, lemma_parsed_pairs, pairs_len};
use crate::widget::pair::{parse_block, parse_pairs, read_block, read_pairs, write_pair};
use crate::widget::permutation;
use crate::widget::range;
use vstd::prelude::*;

verus! {

/// The proving key of a circuit.
///
/// Some selectors constrain several families of gates at once, and the
/// fragments of those families each hold them: `q_c` is held by the
/// arithmetic, the logic and the fixed-base fragment, `q_l` and `q_r` by the
/// arithmetic and the fixed-base fragment. In every key the copies are equal.
#[derive(Debug, PartialEq, Eq)]
pub struct ProverKey {
    n: usize,
    arithmetic: arithmetic::ProverKey,
    logic: logic::ProverKey,
    range: range::ProverKey,
    fixed_base: fixed_base::ProverKey,
    permutation: permutation::ProverKey,
    variable_base: curve_addition::ProverKey,
    v_h_coset_4n: Evaluations,
}

/// What a [`ProverKey`] stands for: the circuit size, the views of the six
/// fragments, and the evaluations of the vanishing polynomial.
pub struct ProverKeyView {
    pub n: usize,
    pub arithmetic: arithmetic::ProverKeyView,
    pub logic: logic::ProverKeyView,
    pub range: range::ProverKeyView,
    pub fixed_base: fixed_base::ProverKeyView,
    pub permutation: permutation::ProverKeyView,
    pub variable_base: curve_addition::ProverKeyView,
    pub v_h_coset_4n: EvaluationsView,
}

impl ProverKeyView {
    /// The key of a circuit of size `n` with the given polynomials, each
    /// placed in every fragment that holds it.
    pub open spec fn of_parts(
        n: usize,
        q_m: PairView,
        q_l: PairView,
        q_r: PairView,
        q_o: PairView,
        q_4: PairView,
        q_c: PairView,
        q_arith: PairView,
        q_logic: PairView,
        q_range: PairView,
        q_fixed_group_add: PairView,
        q_variable_group_add: PairView,
        left_sigma: PairView,
        right_sigma: PairView,
        out_sigma: PairView,
        fourth_sigma: PairView,
        linear_evaluations: EvaluationsView,
        v_h_coset_4n: EvaluationsView,
    ) -> ProverKeyView {
        ProverKeyView {
            n,
            arithmetic: arithmetic::ProverKeyView { q_m, q_l, q_r, q_o, q_c, q_4, q_arith },
            logic: logic::ProverKeyView { q_c, q_logic },
            range: range::ProverKeyView { q_range },
            fixed_base: fixed_base::ProverKeyView { q_l, q_r, q_c, q_fixed_group_add },
            permutation: permutation::ProverKeyView {
                left_sigma,
                right_sigma,
                out_sigma,
                fourth_sigma,
                linear_evaluations,
            },
            variable_base: curve_addition::ProverKeyView { q_variable_group_add },
            v_h_coset_4n,
        }
    }

    /// The fifteen polynomials with their evaluations, in the order of the
    /// protocol. A shared selector is taken from the arithmetic fragment.
    pub open spec fn pairs(self) -> Seq<PairView> {
        seq![
            self.arithmetic.q_m,
            self.arithmetic.q_l,
            self.arithmetic.q_r,
            self.arithmetic.q_o,
            self.arithmetic.q_c,
            self.arithmetic.q_4,
            self.arithmetic.q_arith,
            self.range.q_range,
            self.logic.q_logic,
            self.variable_base.q_variable_group_add,
            self.fixed_base.q_fixed_group_add,
            self.permutation.left_sigma,
            self.permutation.right_sigma,
            self.permutation.out_sigma,
            self.permutation.fourth_sigma,
        ]
    }

    /// The key that holds `pairs`, given in the order of the protocol.
    pub open spec fn from_pairs(
        n: usize,
        pairs: Seq<PairView>,
        linear_evaluations: EvaluationsView,
        v_h_coset_4n: EvaluationsView,
    ) -> ProverKeyView {
        Self::of_parts(
            n,
            pairs[0],
            pairs[1],
            pairs[2],
            pairs[3],
            pairs[5],
            pairs[4],
            pairs[6],
            pairs[8],
            pairs[7],
            pairs[10],
            pairs[9],
            pairs[11],
            pairs[12],
            pairs[13],
            pairs[14],
            linear_evaluations,
            v_h_coset_4n,
        )
    }

    /// The copies of each shared selector are equal.
    pub open spec fn aliased(self) -> bool {
        &&& self.logic.q_c == self.arithmetic.q_c
        &&& self.fixed_base.q_l == self.arithmetic.q_l
        &&& self.fixed_base.q_r == self.arithmetic.q_r
        &&& self.fixed_base.q_c == self.arithmetic.q_c
    }

    /// The number of bytes that the header of the encoding announces for
    /// every table of evaluations: the size of the table of `q_m`.
    pub open spec fn evaluations_size(self) -> nat {
        self.arithmetic.q_m.1.encoding().len()
    }

    /// The copies of each shared selector are equal, every scalar is
    /// canonical, and every length fits the eight bytes that announce it.
    pub open spec fn wf(self) -> bool {
        &&& self.aliased()
        &&& forall|i: int|
            0 <= i < 15 ==> pair_wf(#[trigger] self.pairs()[i]) && self.pairs()[i].0.len()
                <= u64::MAX
        &&& self.permutation.linear_evaluations.wf()
        &&& self.v_h_coset_4n.wf()
        &&& self.evaluations_size() <= u64::MAX
    }

    /// All seventeen tables of evaluations hold as many values as that of
    /// `q_m`, as they do when all were computed over one domain.
    pub open spec fn uniform(self) -> bool {
        &&& forall|i: int|
            0 <= i < 15 ==> (#[trigger] self.pairs()[i]).1.evals.len()
                == self.arithmetic.q_m.1.evals.len()
        &&& self.permutation.linear_evaluations.evals.len() == self.arithmetic.q_m.1.evals.len()
        &&& self.v_h_coset_4n.evals.len() == self.arithmetic.q_m.1.evals.len()
    }

    /// The bytes that stand for what follows the header of an encoded key:
    /// the fifteen pairs in the order of the protocol; the linear evaluations
    /// of the permutation; the evaluations of the vanishing polynomial.
    pub open spec fn body_encoding(self) -> Seq<u8> {
        concat(pair_encodings(self.pairs())) + self.permutation.linear_evaluations.encoding()
            + self.v_h_coset_4n.encoding()
    }

    /// The bytes that stand for this key: the circuit size and the size of a
    /// table of evaluations as eight bytes each, then the body.
    pub open spec fn encoding(self) -> Seq<u8> {
        le_encoding(self.n as nat, 8) + le_encoding(self.evaluations_size(), 8)
            + self.body_encoding()
    }

    /// The key of a circuit of size `n` that the body `s` stands for, every
    /// table in it being `size` bytes long.
    pub open spec fn body_decoding(n: usize, size: nat, s: Seq<u8>) -> Result<
        ProverKeyView,
        Error,
    > {
        match parse_pairs(s, size, 15) {
            Err(e) => Err(e),
            Ok((pairs, after_pairs)) => match parse_block(after_pairs, size) {
                Err(e) => Err(e),
                Ok((linear_evaluations, after_linear)) => match parse_block(after_linear, size) {
                    Err(e) => Err(e),
                    Ok((v_h_coset_4n, _)) => Ok(
                        Self::from_pairs(n, pairs, linear_evaluations, v_h_coset_4n),
                    ),
                },
            },
        }
    }

    /// The key that `s` stands for. The fields are read in the order in
    /// which they are written, and the first that cannot be read decides the
    /// error. Bytes beyond the last field are not read.
    pub open spec fn decoding(s: Seq<u8>) -> Result<ProverKeyView, Error> {
        match parse_u64(s) {
            Err(e) => Err(e),
            Ok((n, after_n)) => match parse_u64(after_n) {
                Err(e) => Err(e),
                Ok((size, after_size)) => Self::body_decoding(n as usize, size as nat, after_size),
            },
        }
    }
}

impl View for ProverKey {
    type V = ProverKeyView;

    closed spec fn view(&self) -> ProverKeyView {
        ProverKeyView {
            n: self.n,
            arithmetic: self.arithmetic@,
            logic: self.logic@,
            range: self.range@,
            fixed_base: self.fixed_base@,
            permutation: self.permutation@,
            variable_base: self.variable_base@,
            v_h_coset_4n: self.v_h_coset_4n@,
        }
    }
}

impl Clone for ProverKey {
    fn clone(&self) -> (r: Self)
        ensures
            r@ == self@,
    {
        proof {
            use_type_invariant(self);
        }
        ProverKey {
            n: self.n,
            arithmetic: self.arithmetic.clone(),
            logic: self.logic.clone(),
            range: self.range.clone(),
            fixed_base: self.fixed_base.clone(),
            permutation: self.permutation.clone(),
            variable_base: self.variable_base.clone(),
            v_h_coset_4n: self.v_h_coset_4n.clone(),
        }
    }
}

impl ProverKey {
    #[verifier::type_invariant]
    spec fn shared_selectors_agree(self) -> bool {
        self@.aliased()
    }

    /// The number of polynomials that a proving key holds.
    pub fn num_polys() -> (r: usize)
        ensures
            r == 15,
    {
        15
    }

    /// The number of tables of evaluations that a proving key holds.
    pub fn num_evals() -> (r: usize)
        ensures
            r == 17,
    {
        17
    }

    /// Builds the key of a circuit of size `n` from its selector and sigma
    /// polynomials, each with its evaluations, and the two tables that stand
    /// alone. A selector that several families of gates share is placed in
    /// the fragment of each. Nothing is checked of the domains.
    pub fn from_polynomials_and_evaluations(
        n: usize,
        q_m: (Polynomial, Evaluations),
        q_l: (Polynomial, Evaluations),
        q_r: (Polynomial, Evaluations),
        q_o: (Polynomial, Evaluations),
        q_4: (Polynomial, Evaluations),
        q_c: (Polynomial, Evaluations),
        q_arith: (Polynomial, Evaluations),
        q_logic: (Polynomial, Evaluations),
        q_range: (Polynomial, Evaluations),
        q_fixed_group_add: (Polynomial, Evaluations),
        q_variable_group_add: (Polynomial, Evaluations),
        left_sigma: (Polynomial, Evaluations),
        right_sigma: (Polynomial, Evaluations),
        out_sigma: (Polynomial, Evaluations),
        fourth_sigma: (Polynomial, Evaluations),
        linear_evaluations: Evaluations,
        v_h_coset_4n: Evaluations,
    ) -> (r: ProverKey)
        ensures
            r@ == ProverKeyView::of_parts(
                n,
                q_m@,
                q_l@,
                q_r@,
                q_o@,
                q_4@,
                q_c@,
                q_arith@,
                q_logic@,
                q_range@,
                q_fixed_group_add@,
                q_variable_group_add@,
                left_sigma@,
                right_sigma@,
                out_sigma@,
                fourth_sigma@,
                linear_evaluations@,
                v_h_coset_4n@,
            ),
    {
        let arithmetic = arithmetic::ProverKey {
            q_m,
            q_l: clone_pair(&q_l),
            q_r: clone_pair(&q_r),
            q_o,
            q_c: clone_pair(&q_c),
            q_4,
            q_arith,
        };
        let logic = logic::ProverKey { q_c: clone_pair(&q_c), q_logic };
        let range = range::ProverKey { q_range };
        let fixed_base = fixed_base::ProverKey { q_l, q_r, q_c, q_fixed_group_add };
        let permutation = permutation::ProverKey {
            left_sigma,
            right_sigma,
            out_sigma,
            fourth_sigma,
            linear_evaluations,
        };
        let variable_base = curve_addition::ProverKey { q_variable_group_add };
        ProverKey {
            n,
            arithmetic,
            logic,
            range,
            fixed_base,
            permutation,
            variable_base,
            v_h_coset_4n,
        }
    }

    /// The size of the circuit: its number of gates, before any padding.
    pub fn n(&self) -> (r: usize)
        ensures
            r == self@.n,
    {
        self.n
    }

    /// The fragment of the arithmetic gates.
    pub fn arithmetic(&self) -> (r: &arithmetic::ProverKey)
        ensures
            r@ == self@.arithmetic,
    {
        &self.arithmetic
    }

    /// The fragment of the logic gates.
    pub fn logic(&self) -> (r: &logic::ProverKey)
        ensures
            r@ == self@.logic,
    {
        &self.logic
    }

    /// The fragment of the range gates.
    pub fn range(&self) -> (r: &range::ProverKey)
        ensures
            r@ == self@.range,
    {
        &self.range
    }

    /// The fragment of the fixed-base scalar multiplication gates.
    pub fn fixed_base(&self) -> (r: &fixed_base::ProverKey)
        ensures
            r@ == self@.fixed_base,
    {
        &self.fixed_base
    }

    /// The fragment of the variable-base curve addition gates.
    pub fn variable_base(&self) -> (r: &curve_addition::ProverKey)
        ensures
            r@ == self@.variable_base,
    {
        &self.variable_base
    }

    /// The fragment of the permutation argument.
    pub fn permutation(&self) -> (r: &permutation::ProverKey)
        ensures
            r@ == self@.permutation,
    {
        &self.permutation
    }

    /// The pair at place `i` of the protocol order.
    fn pair(&self, i: usize) -> (r: &(Polynomial, Evaluations))
        requires
            i < 15,
        ensures
            r@ == self@.pairs()[i as int],
    {
        match i {
            0 => &self.arithmetic.q_m,
            1 => &self.arithmetic.q_l,
            2 => &self.arithmetic.q_r,
            3 => &self.arithmetic.q_o,
            4 => &self.arithmetic.q_c,
            5 => &self.arithmetic.q_4,
            6 => &self.arithmetic.q_arith,
            7 => &self.range.q_range,
            8 => &self.logic.q_logic,
            9 => &self.variable_base.q_variable_group_add,
            10 => &self.fixed_base.q_fixed_group_add,
            11 => &self.permutation.left_sigma,
            12 => &self.permutation.right_sigma,
            13 => &self.permutation.out_sigma,
            _ => &self.permutation.fourth_sigma,
        }
    }

    /// The evaluations of the vanishing polynomial over the extended domain.
    pub fn v_h_coset_4n(&self) -> (r: &Evaluations)
        ensures
            r@ == self@.v_h_coset_4n,
    {
        &self.v_h_coset_4n
    }

    /// The encoding of this key. The header announces one size for all
    /// tables of evaluations, that of the table of `q_m`; every table is
    /// written at its own length all the same, so that a key whose tables
    /// differ in length is written, and is not read back as it was.
    pub fn to_var_bytes(&self) -> (r: Vec<u8>)
        ensures
            r@ == self@.encoding(),
            self@.wf(),
    {
        let mut out: Vec<u8> = Vec::new();
        let coeffs = self.arithmetic.q_m.0.to_var_bytes();
        let table = self.arithmetic.q_m.1.to_var_bytes();
        append_le(&mut out, self.n as u64, 8);
        append_le(&mut out, table.len() as u64, 8);
        let ghost header = out@;
        let ghost encodings = pair_encodings(self@.pairs());
        // The first pair, whose table is at hand already.
        append_le(&mut out, self.arithmetic.q_m.0.len() as u64, 8);
        append_bytes(&mut out, coeffs.as_slice());
        append_bytes(&mut out, table.as_slice());
        let mut i: usize = 1;
        proof {
            assert(encodings[0] == pair_encoding(self@.pairs()[0]));
            assert(encodings.drop_first() =~= encodings.skip(1));
            assert(out@ =~= header + encodings[0]);
            assert(header + (encodings[0] + concat(encodings.skip(1))) =~= (header + encodings[0])
                + concat(encodings.skip(1)));
        }
        while i < 15
            invariant
                1 <= i <= 15,
                encodings == pair_encodings(self@.pairs()),
                header + concat(encodings) == out@ + concat(encodings.skip(i as int)),
                forall|j: int|
                    0 <= j < i ==> pair_wf(#[trigger] self@.pairs()[j]) && self@.pairs()[j].0.len()
                        <= u64::MAX,
            decreases 15 - i,
        {
            let pair = self.pair(i);
            let ghost before = out@;
            write_pair(&mut out, pair);
            proof {
                let left = encodings.skip(i as int);
                assert(left[0] == pair_encoding(pair@));
                assert(left.drop_first() =~= encodings.skip(i + 1));
                assert(before + (left[0] + concat(encodings.skip(i + 1))) =~= (before + left[0])
                    + concat(encodings.skip(i + 1)));
            }
            i = i + 1;
        }
        let linear = self.permutation.linear_evaluations.to_var_bytes();
        let vanishing = self.v_h_coset_4n.to_var_bytes();
        proof {
            assert(encodings.skip(15) =~= Seq::<Seq<u8>>::empty());
            assert(out@ + Seq::<u8>::empty() =~= out@);
            use_type_invariant(self);
        }
        append_bytes(&mut out, linear.as_slice());
        append_bytes(&mut out, vanishing.as_slice());
        assert(out@ =~= self@.encoding());
        out
    }

    /// Decodes a key from the front of `bytes`. A buffer that ends before a
    /// length that it announces, and a scalar that is not canonical, are
    /// failures; nothing makes this function panic.
    pub fn from_slice(bytes: &[u8]) -> (r: Result<ProverKey, Error>)
        ensures
            match ProverKeyView::decoding(bytes@) {
                Ok(key) => r matches Ok(k) && k@ == key && key.wf() && key.uniform(),
                Err(e) => r == Err::<ProverKey, Error>(e),
            },
    {
        proof {
            lemma_decoded_prover_key_is_well_formed(bytes@);
        }
        let (n, after_n) = read_u64(bytes)?;
        let (size, after_size) = read_u64(after_n)?;
        let (mut pairs, after_pairs) = read_pairs(after_size, size, 15)?;
        let (linear_evaluations, after_linear) = read_block(after_pairs, size)?;
        let (v_h_coset_4n, _) = read_block(after_linear, size)?;
        let ghost views = pair_views(pairs@);
        let fourth_sigma = pairs.pop().unwrap();
        assert(fourth_sigma@ == views[14]);
        let out_sigma = pairs.pop().unwrap();
        assert(out_sigma@ == views[13]);
        let right_sigma = pairs.pop().unwrap();
        assert(right_sigma@ == views[12]);
        let left_sigma = pairs.pop().unwrap();
        assert(left_sigma@ == views[11]);
        let q_fixed_group_add = pairs.pop().unwrap();
        assert(q_fixed_group_add@ == views[10]);
        let q_variable_group_add = pairs.pop().unwrap();
        assert(q_variable_group_add@ == views[9]);
        let q_logic = pairs.pop().unwrap();
        assert(q_logic@ == views[8]);
        let q_range = pairs.pop().unwrap();
        assert(q_range@ == views[7]);
        let q_arith = pairs.pop().unwrap();
        assert(q_arith@ == views[6]);
        let q_4 = pairs.pop().unwrap();
        assert(q_4@ == views[5]);
        let q_c = pairs.pop().unwrap();
        assert(q_c@ == views[4]);
        let q_o = pairs.pop().unwrap();
        assert(q_o@ == views[3]);
        let q_r = pairs.pop().unwrap();
        assert(q_r@ == views[2]);
        let q_l = pairs.pop().unwrap();
        assert(q_l@ == views[1]);
        let q_m = pairs.pop().unwrap();
        assert(q_m@ == views[0]);
        Ok(
            Self::from_polynomials_and_evaluations(
                #[verifier::truncate] (n as usize),
                q_m,
                q_l,
                q_r,
                q_o,
                q_4,
                q_c,
                q_arith,
                q_logic,
                q_range,
                q_fixed_group_add,
                q_variable_group_add,
                left_sigma,
                right_sigma,
                out_sigma,
                fourth_sigma,
                linear_evaluations,
                v_h_coset_4n,
            ),
        )
    }
}

/// A key is made of its pairs and its two tables, once the copies of the
/// shared selectors agree.
pub proof fn lemma_key_of_its_pairs(key: ProverKeyView)
    requires
        key.aliased(),
    ensures
        ProverKeyView::from_pairs(
            key.n,
            key.pairs(),
            key.permutation.linear_evaluations,
            key.v_h_coset_4n,
        ) == key,
{
}

/// The pairs of a key made of fifteen pairs are those pairs, and the copies
/// of the shared selectors agree in it.
pub proof fn lemma_pairs_of_key(
    n: usize,
    pairs: Seq<PairView>,
    linear_evaluations: EvaluationsView,
    v_h_coset_4n: EvaluationsView,
)
    requires
        pairs.len() == 15,
    ensures
        ProverKeyView::from_pairs(n, pairs, linear_evaluations, v_h_coset_4n).pairs() == pairs,
        ProverKeyView::from_pairs(n, pairs, linear_evaluations, v_h_coset_4n).aliased(),
        ProverKeyView::from_pairs(n, pairs, linear_evaluations, v_h_coset_4n).n == n,
        ProverKeyView::from_pairs(
            n,
            pairs,
            linear_evaluations,
            v_h_coset_4n,
        ).permutation.linear_evaluations == linear_evaluations,
        ProverKeyView::from_pairs(n, pairs, linear_evaluations, v_h_coset_4n).v_h_coset_4n
            == v_h_coset_4n,
        ProverKeyView::from_pairs(n, pairs, linear_evaluations, v_h_coset_4n).arithmetic.q_m
            == pairs[0],
{
    let key = ProverKeyView::from_pairs(n, pairs, linear_evaluations, v_h_coset_4n);
    assert(key.pairs() =~= pairs);
}

/// In a well-formed key whose tables have one length, every table takes the
/// number of bytes that the header announces.
pub proof fn lemma_tables_have_the_announced_size(key: ProverKeyView)
    requires
        key.wf(),
        key.uniform(),
    ensures
        key.evaluations_size() == 172 + 32 * key.arithmetic.q_m.1.evals.len(),
        forall|i: int|
            0 <= i < 15 ==> (#[trigger] key.pairs()[i]).1.encoding().len()
                == key.evaluations_size(),
        key.permutation.linear_evaluations.encoding().len() == key.evaluations_size(),
        key.v_h_coset_4n.encoding().len() == key.evaluations_size(),
{
    assert(pair_wf(key.pairs()[0]));
    lemma_evaluations_encoding_len(key.arithmetic.q_m.1);
    lemma_evaluations_encoding_len(key.permutation.linear_evaluations);
    lemma_evaluations_encoding_len(key.v_h_coset_4n);
    assert forall|i: int| 0 <= i < 15 implies (#[trigger] key.pairs()[i]).1.encoding().len()
        == key.evaluations_size() by {
        assert(pair_wf(key.pairs()[i]));
        lemma_evaluations_encoding_len(key.pairs()[i].1);
    }
}

/// The number of bytes of the body of an encoded key.
pub proof fn lemma_body_encoding_len(key: ProverKeyView)
    requires
        key.wf(),
        key.uniform(),
    ensures
        key.body_encoding().len() == pairs_len(key.pairs(), key.evaluations_size()) + 2
            * key.evaluations_size(),
{
    lemma_tables_have_the_announced_size(key);
    lemma_pair_encodings_len(key.pairs(), key.evaluations_size());
}

/// The number of bytes of an encoded key: sixteen for the two integers of
/// the header; for each of the fifteen pairs eight bytes, thirty-two for each
/// coefficient, and a table; and two tables more. A table takes 172 bytes
/// and thirty-two for each value.
pub proof fn lemma_prover_key_encoding_len(key: ProverKeyView)
    requires
        key.wf(),
        key.uniform(),
    ensures
        key.encoding().len() == 16 + 15 * (8 + key.evaluations_size()) + 32 * coefficient_count(
            key.pairs(),
        ) + 2 * key.evaluations_size(),
        key.evaluations_size() == 172 + 32 * key.arithmetic.q_m.1.evals.len(),
{
    let size = key.evaluations_size();
    lemma_tables_have_the_announced_size(key);
    lemma_le_encoding_len(key.n as nat, 8);
    lemma_le_encoding_len(size, 8);
    lemma_body_encoding_len(key);
    lemma_pairs_len_formula(key.pairs(), size);
}

/// Decoding the body of a key gives the key back, whatever follows.
pub proof fn lemma_body_round_trip(key: ProverKeyView, tail: Seq<u8>)
    requires
        key.wf(),
        key.uniform(),
    ensures
        ProverKeyView::body_decoding(key.n, key.evaluations_size(), key.body_encoding() + tail)
            == Ok::<ProverKeyView, Error>(key),
{
    let size = key.evaluations_size();
    let pairs = key.pairs();
    let linear = key.permutation.linear_evaluations;
    let vanishing = key.v_h_coset_4n;
    let after_linear = vanishing.encoding() + tail;
    let after_pairs = linear.encoding() + after_linear;
    lemma_tables_have_the_announced_size(key);
    assert(key.body_encoding() + tail =~= concat(pair_encodings(pairs)) + after_pairs);
    lemma_parse_pairs_of_encodings(pairs, size, after_pairs);
    lemma_parse_block_of_encoding(linear, after_linear);
    lemma_parse_block_of_encoding(vanishing, tail);
    lemma_key_of_its_pairs(key);
}

/// Decoding the encoding of a key whose tables have one length gives the
/// key back, field for field, whatever follows the encoding.
pub proof fn lemma_prover_key_round_trip(key: ProverKeyView, tail: Seq<u8>)
    requires
        key.wf(),
        key.uniform(),
    ensures
        ProverKeyView::decoding(key.encoding() + tail) == Ok::<ProverKeyView, Error>(key),
{
    let size = key.evaluations_size();
    let after_size = key.body_encoding() + tail;
    let after_n = le_encoding(size, 8) + after_size;
    assert(key.encoding() + tail =~= le_encoding(key.n as nat, 8) + after_n);
    lemma_parse_u64_of_encoding(key.n as u64, after_n);
    lemma_parse_u64_of_encoding(size as u64, after_size);
    lemma_body_round_trip(key, tail);
}

/// Whatever bytes the body of a key was decoded from, the key is well
/// formed, its tables have the size they were read at, and the bytes that
/// were read are as many as its body has.
pub proof fn lemma_decoded_body_is_well_formed(n: usize, size: nat, s: Seq<u8>)
    requires
        size <= u64::MAX,
    ensures
        ProverKeyView::body_decoding(n, size, s) matches Ok(key) ==> {
            &&& key.wf()
            &&& key.uniform()
            &&& key.n == n
            &&& key.evaluations_size() == size
            &&& key.body_encoding().len() <= s.len()
            &&& key.body_encoding().len() == s.len() - parse_pairs(s, size, 15)->Ok_0.1.len() + 2
                * size
        },
{
    if let Ok(key) = ProverKeyView::body_decoding(n, size, s) {
        let (pairs, after_pairs) = parse_pairs(s, size, 15)->Ok_0;
        let (linear, after_linear) = parse_block(after_pairs, size)->Ok_0;
        let (vanishing, _) = parse_block(after_linear, size)->Ok_0;
        lemma_parsed_pairs(s, size, 15);
        lemma_parsed_block(after_pairs, size);
        lemma_parsed_block(after_linear, size);
        lemma_pairs_of_key(n, pairs, linear, vanishing);
        assert(pair_wf(pairs[0]));
        assert(key.wf());
        assert(key.uniform());
        lemma_body_encoding_len(key);
    }
}

/// Whatever bytes a key was decoded from, it is well formed: the fragments
/// that share a selector hold the same value for it, every scalar is
/// canonical, and all tables have one length.
pub proof fn lemma_decoded_prover_key_is_well_formed(s: Seq<u8>)
    ensures
        ProverKeyView::decoding(s) matches Ok(key) ==> key.wf() && key.uniform(),
{
    if let Ok(key) = ProverKeyView::decoding(s) {
        let (n, after_n) = parse_u64(s)->Ok_0;
        let (size, after_size) = parse_u64(after_n)->Ok_0;
        lemma_decoded_body_is_well_formed(n as usize, size as nat, after_size);
    }
}

/// The body of a key, cut off at any byte before the end of the key, is
/// rejected as too short.
pub proof fn lemma_truncated_body_is_rejected(n: usize, size: nat, s: Seq<u8>, len: nat)
    requires
        size <= u64::MAX,
        ProverKeyView::body_decoding(n, size, s) matches Ok(key) && len
            < key.body_encoding().len(),
    ensures
        ProverKeyView::body_decoding(n, size, s.take(len as int)) == Err::<ProverKeyView, Error>(
            Error::BufferTooShort,
        ),
{
    let (pairs, after_pairs) = parse_pairs(s, size, 15)->Ok_0;
    let (linear, after_linear) = parse_block(after_pairs, size)->Ok_0;
    let used = (s.len() - after_pairs.len()) as nat;
    let cut = s.take(len as int);
    let too_short = Err::<ProverKeyView, Error>(Error::BufferTooShort);
    assert(len < used + 2 * size) by {
        lemma_decoded_body_is_well_formed(n, size, s);
    }
    assert(used <= s.len() && after_pairs.len() == s.len() - used) by {
        lemma_parsed_pairs(s, size, 15);
    }
    assert(size <= after_pairs.len() && after_linear == after_pairs.skip(size as int)) by {
        lemma_parsed_block(after_pairs, size);
    }
    assert(size <= after_linear.len()) by {
        lemma_parsed_block(after_linear, size);
    }
    lemma_parse_pairs_prefix(s, size, 15, len);
    if len < used {
        assert(ProverKeyView::body_decoding(n, size, cut) == too_short);
    } else {
        let left = (len - used) as nat;
        let cut_after_pairs = after_pairs.take(left as int);
        assert(parse_pairs(cut, size, 15) == Ok::<
            (Seq<PairView>, Seq<u8>),
            Error,
        >((pairs, cut_after_pairs)));
        lemma_parse_block_prefix(after_pairs, size, left);
        if left < size {
            assert(ProverKeyView::body_decoding(n, size, cut) == too_short);
        } else {
            let cut_after_linear = after_linear.take(left - size);
            assert(parse_block(cut_after_pairs, size) == Ok::<(EvaluationsView, Seq<u8>), Error>(
                (linear, cut_after_linear),
            ));
            lemma_parse_block_prefix(after_linear, size, (left - size) as nat);
            assert(parse_block(cut_after_linear, size) == Err::<
                (EvaluationsView, Seq<u8>),
                Error,
            >(Error::BufferTooShort));
            assert(ProverKeyView::body_decoding(n, size, cut) == too_short);
        }
    }
}

/// A buffer that a key was decoded from, cut off at any byte before the end
/// of the key, is rejected as too short.
pub proof fn lemma_truncated_prover_key_is_rejected(s: Seq<u8>, len: nat)
    requires
        ProverKeyView::decoding(s) matches Ok(key) && len < key.encoding().len(),
    ensures
        ProverKeyView::decoding(s.take(len as int)) == Err::<ProverKeyView, Error>(
            Error::BufferTooShort,
        ),
{
    let key = ProverKeyView::decoding(s)->Ok_0;
    let (n, after_n) = parse_u64(s)->Ok_0;
    let (size, after_size) = parse_u64(after_n)->Ok_0;
    lemma_decoded_body_is_well_formed(n as usize, size as nat, after_size);
    lemma_le_encoding_len(key.n as nat, 8);
    lemma_le_encoding_len(key.evaluations_size(), 8);
    lemma_parse_u64_prefix(s, len);
    if len >= 8 {
        lemma_parse_u64_prefix(after_n, (len - 8) as nat);
        if len >= 16 {
            lemma_truncated_body_is_rejected(
                n as usize,
                size as nat,
                after_size,
                (len - 16) as nat,
            );
        }
    }
}

/// The encoding of a key, cut off at any byte, is rejected as too short.
pub proof fn lemma_truncated_encoding_is_rejected(key: ProverKeyView, len: nat)
    requires
        key.wf(),
        key.uniform(),
        len < key.encoding().len(),
    ensures
        ProverKeyView::decoding(key.encoding().take(len as int)) == Err::<ProverKeyView, Error>(
            Error::BufferTooShort,
        ),
{
    lemma_prover_key_round_trip(key, Seq::empty());
    assert(key.encoding() + Seq::<u8>::empty() =~= key.encoding());
    lemma_truncated_prover_key_is_rejected(key.encoding(), len);
}

} // verus!
