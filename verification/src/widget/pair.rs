//! A polynomial with its evaluations: the unit that a proving key holds for
//! each selector and each sigma, and its place in the key's byte layout.

use crate::bytes::{append_bytes, append_le, concat, le_encoding, parse_u64, read_u64};
use crate::bytes::{lemma_le_encoding_len, lemma_parse_u64_of_encoding, lemma_parse_u64_prefix};
use crate::error::Error;
use crate::fft::evaluations::{lemma_evaluations_encoding_len, lemma_parse_evaluations_of_encoding};
use crate::fft::evaluations::lemma_parsed_evaluations_are_well_formed;
use crate::fft::evaluations::{parse_evaluations, Evaluations, EvaluationsView};
use crate::fft::polynomial::Polynomial;
use crate::scalar::{all_canonical, parse_scalars};
use crate::scalar::{lemma_parse_scalars_inverts, lemma_parse_scalars_of_encoding};
use crate::scalar::lemma_scalars_encoding_len;
use vstd::prelude::*;
use vstd::slice::slice_subrange;

verus! {

/// What a polynomial with its evaluations stands for: the encodings of the
/// coefficients, and the view of the table.
pub type PairView = (Seq<Seq<u8>>, EvaluationsView);

/// Every coefficient and every evaluation is canonical, and the domain is
/// well formed.
pub open spec fn pair_wf(pair: PairView) -> bool {
    all_canonical(pair.0) && pair.1.wf()
}

/// The bytes of a pair: the number of coefficients as eight bytes, the
/// coefficients, then the table of evaluations.
pub open spec fn pair_encoding(pair: PairView) -> Seq<u8> {
    le_encoding(pair.0.len(), 8) + concat(pair.0) + pair.1.encoding()
}

/// Reading a table of evaluations of `size` bytes off the front of `s`.
#[verifier::opaque]
pub open spec fn parse_block(s: Seq<u8>, size: nat) -> Result<(EvaluationsView, Seq<u8>), Error> {
    if size > s.len() {
        Err(Error::BufferTooShort)
    } else {
        match parse_evaluations(s.take(size as int)) {
            Err(e) => Err(e),
            Ok(evaluations) => Ok((evaluations, s.skip(size as int))),
        }
    }
}

/// Reading a pair off the front of `s`: a count, that many coefficients, and
/// a table of evaluations of `size` bytes. A count of zero is followed by the
/// table at once.
#[verifier::opaque]
pub open spec fn parse_pair(s: Seq<u8>, size: nat) -> Result<
    (PairView, Seq<u8>),
    Error,
> {
    match parse_u64(s) {
        Err(e) => Err(e),
        Ok((count, after_count)) => if 32 * count > after_count.len() {
            Err(Error::BufferTooShort)
        } else {
            match parse_scalars(after_count.take(32 * count)) {
                Err(e) => Err(e),
                Ok(coeffs) => match parse_block(after_count.skip(32 * count), size) {
                    Err(e) => Err(e),
                    Ok((evaluations, rest)) => Ok(((coeffs, evaluations), rest)),
                },
            }
        },
    }
}

/// Reading `count` pairs off the front of `s`, one after the other, each with
/// a table of `size` bytes. The first pair that cannot be read decides the
/// error.
pub open spec fn parse_pairs(s: Seq<u8>, size: nat, count: nat) -> Result<
    (Seq<PairView>, Seq<u8>),
    Error,
>
    decreases count,
{
    if count == 0 {
        Ok((Seq::empty(), s))
    } else {
        match parse_pair(s, size) {
            Err(e) => Err(e),
            Ok((first, rest)) => match parse_pairs(rest, size, (count - 1) as nat) {
                Err(e) => Err(e),
                Ok((others, end)) => Ok((seq![first] + others, end)),
            },
        }
    }
}

/// What a sequence of pairs stands for.
pub open spec fn pair_views(pairs: Seq<(Polynomial, Evaluations)>) -> Seq<
    PairView,
> {
    pairs.map_values(|p: (Polynomial, Evaluations)| p@)
}

/// The encodings of the members of `pairs`.
pub open spec fn pair_encodings(pairs: Seq<PairView>) -> Seq<Seq<u8>> {
    pairs.map_values(|p: PairView| pair_encoding(p))
}

/// A table read from the front of its encoding followed by anything, at its
/// own size, is that table.
pub proof fn lemma_parse_block_of_encoding(e: EvaluationsView, tail: Seq<u8>)
    requires
        e.wf(),
    ensures
        parse_block(e.encoding() + tail, e.encoding().len()) == Ok::<
            (EvaluationsView, Seq<u8>),
            Error,
        >((e, tail)),
{
    reveal(parse_block);
    let s = e.encoding() + tail;
    let size = e.encoding().len();
    assert(s.take(size as int) =~= e.encoding());
    assert(s.skip(size as int) =~= tail);
    lemma_parse_evaluations_of_encoding(e);
}

/// A well-formed pair takes eight bytes, thirty-two for each coefficient,
/// and its table.
pub proof fn lemma_pair_encoding_len(pair: PairView)
    requires
        pair_wf(pair),
    ensures
        pair_encoding(pair).len() == 8 + 32 * pair.0.len() + pair.1.encoding().len(),
{
    lemma_le_encoding_len(pair.0.len(), 8);
    lemma_scalars_encoding_len(pair.0);
}

/// A pair read from the front of its encoding followed by anything, at the
/// size of its table, is that pair.
pub proof fn lemma_parse_pair_of_encoding(pair: PairView, tail: Seq<u8>)
    requires
        pair_wf(pair),
        pair.0.len() <= u64::MAX,
    ensures
        parse_pair(pair_encoding(pair) + tail, pair.1.encoding().len()) == Ok::<
            (PairView, Seq<u8>),
            Error,
        >((pair, tail)),
{
    reveal(parse_pair);
    let count = pair.0.len() as u64;
    let coeffs = concat(pair.0);
    let table = pair.1.encoding();
    let s = pair_encoding(pair) + tail;
    let after_count = coeffs + table + tail;
    lemma_parse_u64_of_encoding(count, after_count);
    assert(le_encoding(count as nat, 8) + after_count =~= s);
    lemma_scalars_encoding_len(pair.0);
    assert(after_count.take(32 * count) =~= coeffs);
    assert(after_count.skip(32 * count) =~= table + tail);
    lemma_parse_scalars_of_encoding(pair.0);
    lemma_parse_block_of_encoding(pair.1, tail);
}

/// One step of reading pairs: the first pair, then the others.
proof fn lemma_parse_pairs_step(
    s: Seq<u8>,
    size: nat,
    count: nat,
    first: PairView,
    rest: Seq<u8>,
    others: Seq<PairView>,
    end: Seq<u8>,
)
    requires
        count > 0,
        parse_pair(s, size) == Ok::<(PairView, Seq<u8>), Error>(
            (first, rest),
        ),
        parse_pairs(rest, size, (count - 1) as nat) == Ok::<
            (Seq<PairView>, Seq<u8>),
            Error,
        >((others, end)),
    ensures
        parse_pairs(s, size, count) == Ok::<
            (Seq<PairView>, Seq<u8>),
            Error,
        >((seq![first] + others, end)),
{
}

/// The encodings of pairs, split at the first.
proof fn lemma_pair_encodings_split(pairs: Seq<PairView>, tail: Seq<u8>)
    requires
        pairs.len() > 0,
    ensures
        concat(pair_encodings(pairs)) + tail == pair_encoding(pairs[0]) + (concat(
            pair_encodings(pairs.drop_first()),
        ) + tail),
{
    let encodings = pair_encodings(pairs);
    assert(encodings.drop_first() =~= pair_encodings(pairs.drop_first()));
    assert(concat(encodings) + tail =~= pair_encoding(pairs[0]) + (concat(
        pair_encodings(pairs.drop_first()),
    ) + tail));
}

/// Pairs read from the front of their encodings followed by anything, at
/// the size that all their tables have, are those pairs.
pub proof fn lemma_parse_pairs_of_encodings(
    pairs: Seq<PairView>,
    size: nat,
    tail: Seq<u8>,
)
    requires
        forall|i: int|
            0 <= i < pairs.len() ==> pair_wf(#[trigger] pairs[i]) && pairs[i].0.len() <= u64::MAX
                && pairs[i].1.encoding().len() == size,
    ensures
        parse_pairs(concat(pair_encodings(pairs)) + tail, size, pairs.len()) == Ok::<
            (Seq<PairView>, Seq<u8>),
            Error,
        >((pairs, tail)),
    decreases pairs.len(),
{
    if pairs.len() == 0 {
        assert(concat(pair_encodings(pairs)) + tail =~= tail);
        assert(pairs =~= Seq::empty());
    } else {
        let others = pairs.drop_first();
        let after = concat(pair_encodings(others)) + tail;
        lemma_pair_encodings_split(pairs, tail);
        assert(pair_wf(pairs[0]) && pairs[0].0.len() <= u64::MAX && pairs[0].1.encoding().len()
            == size);
        lemma_parse_pair_of_encoding(pairs[0], after);
        assert forall|i: int| 0 <= i < others.len() implies pair_wf(#[trigger] others[i])
            && others[i].0.len() <= u64::MAX && others[i].1.encoding().len() == size by {
            assert(others[i] == pairs[i + 1]);
        }
        lemma_parse_pairs_of_encodings(others, size, tail);
        lemma_parse_pairs_step(
            concat(pair_encodings(pairs)) + tail,
            size,
            pairs.len(),
            pairs[0],
            after,
            others,
            tail,
        );
        assert(seq![pairs[0]] + others =~= pairs);
    }
}

/// The number of bytes that the encodings of `pairs` take when each table
/// takes `size` bytes.
pub open spec fn pairs_len(pairs: Seq<PairView>, size: nat) -> nat
    decreases pairs.len(),
{
    if pairs.len() == 0 {
        0
    } else {
        8 + 32 * pairs[0].0.len() + size + pairs_len(pairs.drop_first(), size)
    }
}

/// The number of coefficients of all polynomials of `pairs` together.
pub open spec fn coefficient_count(pairs: Seq<PairView>) -> nat
    decreases pairs.len(),
{
    if pairs.len() == 0 {
        0
    } else {
        pairs[0].0.len() + coefficient_count(pairs.drop_first())
    }
}

/// Each pair takes eight bytes and its table, and thirty-two bytes for each
/// coefficient.
pub proof fn lemma_pairs_len_formula(pairs: Seq<PairView>, size: nat)
    ensures
        pairs_len(pairs, size) == pairs.len() * (8 + size) + 32 * coefficient_count(pairs),
    decreases pairs.len(),
{
    if pairs.len() > 0 {
        let others = pairs.drop_first();
        lemma_pairs_len_formula(others, size);
        assert(pairs.len() * (8 + size) == others.len() * (8 + size) + (8 + size))
            by (nonlinear_arith)
            requires
                pairs.len() == others.len() + 1,
        ;
    }
}

/// The encodings of well-formed pairs with tables of one size take
/// `pairs_len` bytes.
pub proof fn lemma_pair_encodings_len(pairs: Seq<PairView>, size: nat)
    requires
        forall|i: int|
            0 <= i < pairs.len() ==> pair_wf(#[trigger] pairs[i]) && pairs[i].1.encoding().len()
                == size,
    ensures
        concat(pair_encodings(pairs)).len() == pairs_len(pairs, size),
    decreases pairs.len(),
{
    if pairs.len() > 0 {
        let others = pairs.drop_first();
        assert(pair_encodings(pairs).drop_first() =~= pair_encodings(others));
        assert(pair_wf(pairs[0]) && pairs[0].1.encoding().len() == size);
        lemma_pair_encoding_len(pairs[0]);
        assert forall|i: int| 0 <= i < others.len() implies pair_wf(#[trigger] others[i])
            && others[i].1.encoding().len() == size by {
            assert(others[i] == pairs[i + 1]);
        }
        lemma_pair_encodings_len(others, size);
    }
}

/// A table that was read is well formed and takes the size it was read at.
pub proof fn lemma_parsed_block(s: Seq<u8>, size: nat)
    ensures
        parse_block(s, size) matches Ok((e, rest)) ==> e.wf() && size == 172 + 32 * e.evals.len()
            && size == e.encoding().len() && size <= s.len() && rest == s.skip(size as int),
{
    reveal(parse_block);
    if let Ok((e, rest)) = parse_block(s, size) {
        lemma_parsed_evaluations_are_well_formed(s.take(size as int));
        lemma_evaluations_encoding_len(e);
    }
}

/// Reading a table from a buffer that was cut off: too short where the
/// table is not all there, and else the same table, followed by what is left
/// of the rest.
pub proof fn lemma_parse_block_prefix(s: Seq<u8>, size: nat, m: nat)
    requires
        parse_block(s, size) is Ok,
        m <= s.len(),
    ensures
        m < size ==> parse_block(s.take(m as int), size) == Err::<
            (EvaluationsView, Seq<u8>),
            Error,
        >(Error::BufferTooShort),
        m >= size ==> parse_block(s.take(m as int), size) == Ok::<
            (EvaluationsView, Seq<u8>),
            Error,
        >((parse_block(s, size)->Ok_0.0, parse_block(s, size)->Ok_0.1.take(m - size))),
{
    reveal(parse_block);
    if m >= size {
        assert(s.take(m as int).take(size as int) =~= s.take(size as int));
        assert(s.take(m as int).skip(size as int) =~= s.skip(size as int).take(m - size));
    }
}

/// A pair that was read is well formed; its table takes the size it was read
/// at; and the bytes read were the eight of the count, thirty-two for each
/// coefficient, and the table.
pub proof fn lemma_parsed_pair(s: Seq<u8>, size: nat)
    ensures
        parse_pair(s, size) matches Ok((p, rest)) ==> pair_wf(p) && p.0.len() <= u64::MAX && size
            == 172 + 32 * p.1.evals.len() && size == p.1.encoding().len() && s.len() == 8 + 32
            * p.0.len() + size + rest.len() && rest == s.skip((8 + 32 * p.0.len() + size) as int),
{
    reveal(parse_pair);
    if let Ok((p, rest)) = parse_pair(s, size) {
        let count = parse_u64(s)->Ok_0.0;
        let after_count = s.skip(8);
        lemma_parse_scalars_inverts(after_count.take(32 * count));
        lemma_parsed_block(after_count.skip(32 * count), size);
        assert(rest =~= s.skip((8 + 32 * p.0.len() + size) as int));
    }
}

/// Reading a pair from a buffer that was cut off: too short where the pair
/// is not all there, and else the same pair, followed by what is left of the
/// rest.
pub proof fn lemma_parse_pair_prefix(s: Seq<u8>, size: nat, m: nat)
    requires
        parse_pair(s, size) is Ok,
        m <= s.len(),
    ensures
        m < s.len() - parse_pair(s, size)->Ok_0.1.len() ==> parse_pair(s.take(m as int), size)
            == Err::<(PairView, Seq<u8>), Error>(Error::BufferTooShort),
        m >= s.len() - parse_pair(s, size)->Ok_0.1.len() ==> parse_pair(s.take(m as int), size)
            == Ok::<(PairView, Seq<u8>), Error>(
            (
                parse_pair(s, size)->Ok_0.0,
                parse_pair(s, size)->Ok_0.1.take(
                    m - (s.len() - parse_pair(s, size)->Ok_0.1.len()),
                ),
            ),
        ),
{
    reveal(parse_pair);
    let (count, after_count) = parse_u64(s)->Ok_0;
    let (p, rest) = parse_pair(s, size)->Ok_0;
    let coeffs_len = 32 * count;
    let table_source = after_count.skip(coeffs_len);
    let cut = s.take(m as int);
    lemma_parsed_pair(s, size);
    lemma_parse_scalars_inverts(after_count.take(coeffs_len));
    lemma_parsed_block(table_source, size);
    lemma_parse_u64_prefix(s, m);
    if m < 8 {
        assert(parse_pair(cut, size) == Err::<(PairView, Seq<u8>), Error>(
            Error::BufferTooShort,
        ));
    } else {
        let cut_after_count = after_count.take(m - 8);
        assert(parse_u64(cut) == Ok::<(u64, Seq<u8>), Error>((count, cut_after_count)));
        if coeffs_len > cut_after_count.len() {
            assert(parse_pair(cut, size) == Err::<
                (PairView, Seq<u8>),
                Error,
            >(Error::BufferTooShort));
        } else {
            let left = (m - 8 - coeffs_len) as nat;
            assert(cut_after_count.take(coeffs_len) =~= after_count.take(coeffs_len));
            assert(cut_after_count.skip(coeffs_len) =~= table_source.take(left as int));
            lemma_parse_block_prefix(table_source, size, left);
            if left < size {
                assert(parse_pair(cut, size) == Err::<
                    (PairView, Seq<u8>),
                    Error,
                >(Error::BufferTooShort));
            } else {
                assert(parse_pair(cut, size) == Ok::<
                    (PairView, Seq<u8>),
                    Error,
                >((p, rest.take(left - size))));
            }
        }
    }
}

/// Pairs that were read are well formed; their tables take the size they
/// were read at; and the bytes read were those of their encodings.
pub proof fn lemma_parsed_pairs(s: Seq<u8>, size: nat, count: nat)
    ensures
        parse_pairs(s, size, count) matches Ok((pairs, rest)) ==> {
            &&& pairs.len() == count
            &&& forall|i: int|
                0 <= i < count ==> pair_wf(#[trigger] pairs[i]) && pairs[i].0.len() <= u64::MAX
                    && size == 172 + 32 * pairs[i].1.evals.len() && size
                    == pairs[i].1.encoding().len()
            &&& s.len() == pairs_len(pairs, size) + rest.len()
        },
    decreases count,
{
    if count > 0 {
        if let Ok((pairs, rest)) = parse_pairs(s, size, count) {
            let (first, after_first) = parse_pair(s, size)->Ok_0;
            let (others, end) = parse_pairs(after_first, size, (count - 1) as nat)->Ok_0;
            lemma_parsed_pair(s, size);
            lemma_parsed_pairs(after_first, size, (count - 1) as nat);
            assert(pairs == seq![first] + others);
            assert(pairs.drop_first() =~= others);
            assert forall|i: int| 0 <= i < count implies pair_wf(#[trigger] pairs[i])
                && pairs[i].0.len() <= u64::MAX && size == 172 + 32 * pairs[i].1.evals.len()
                && size == pairs[i].1.encoding().len() by {
                if i > 0 {
                    assert(pairs[i] == others[i - 1]);
                }
            }
        }
    }
}

/// Reading pairs from a buffer that was cut off: too short where the pairs
/// are not all there, and else the same pairs, followed by what is left of
/// the rest.
pub proof fn lemma_parse_pairs_prefix(s: Seq<u8>, size: nat, count: nat, m: nat)
    requires
        parse_pairs(s, size, count) is Ok,
        m <= s.len(),
    ensures
        m < s.len() - parse_pairs(s, size, count)->Ok_0.1.len() ==> parse_pairs(
            s.take(m as int),
            size,
            count,
        ) == Err::<(Seq<PairView>, Seq<u8>), Error>(Error::BufferTooShort),
        m >= s.len() - parse_pairs(s, size, count)->Ok_0.1.len() ==> parse_pairs(
            s.take(m as int),
            size,
            count,
        ) == Ok::<(Seq<PairView>, Seq<u8>), Error>(
            (
                parse_pairs(s, size, count)->Ok_0.0,
                parse_pairs(s, size, count)->Ok_0.1.take(
                    m - (s.len() - parse_pairs(s, size, count)->Ok_0.1.len()),
                ),
            ),
        ),
    decreases count,
{
    if count == 0 {
        assert(s.take(m as int) =~= s.take(m as int));
    } else {
        let (first, after_first) = parse_pair(s, size)->Ok_0;
        let used = s.len() - after_first.len();
        lemma_parsed_pair(s, size);
        lemma_parsed_pairs(after_first, size, (count - 1) as nat);
        lemma_parse_pair_prefix(s, size, m);
        if m >= used {
            lemma_parse_pairs_prefix(after_first, size, (count - 1) as nat, (m - used) as nat);
        }
    }
}

/// Reads a table of evaluations of `size` bytes off the front of `buf` and
/// returns it with the bytes that follow.
pub fn read_block(buf: &[u8], size: u64) -> (r: Result<(Evaluations, &[u8]), Error>)
    ensures
        match parse_block(buf@, size as nat) {
            Ok((e, rest)) => r matches Ok((t, after)) && t@ == e && after@ == rest,
            Err(e) => r == Err::<(Evaluations, &[u8]), Error>(e),
        },
{
    proof {
        reveal(parse_block);
    }
    if size > buf.len() as u64 {
        return Err(Error::BufferTooShort);
    }
    let size = size as usize;
    let block = slice_subrange(buf, 0, size);
    assert(block@ =~= buf@.take(size as int));
    match Evaluations::from_slice(block) {
        Err(e) => Err(e),
        Ok(evaluations) => {
            let rest = slice_subrange(buf, size, buf.len());
            assert(rest@ =~= buf@.skip(size as int));
            Ok((evaluations, rest))
        },
    }
}

/// Reads a pair off the front of `buf`, its table being `size` bytes long,
/// and returns it with the bytes that follow.
pub fn read_pair(buf: &[u8], size: u64) -> (r: Result<((Polynomial, Evaluations), &[u8]), Error>)
    ensures
        match parse_pair(buf@, size as nat) {
            Ok((p, rest)) => r matches Ok((q, after)) && q@ == p && after@ == rest,
            Err(e) => r == Err::<((Polynomial, Evaluations), &[u8]), Error>(e),
        },
{
    proof {
        reveal(parse_pair);
    }
    let (count, after_count) = read_u64(buf)?;
    if count > (after_count.len() as u64) / 32 {
        return Err(Error::BufferTooShort);
    }
    let len = 32 * (count as usize);
    let coeffs = slice_subrange(after_count, 0, len);
    assert(coeffs@ =~= after_count@.take(32 * count));
    let polynomial = Polynomial::from_slice(coeffs)?;
    let after_coeffs = slice_subrange(after_count, len, after_count.len());
    assert(after_coeffs@ =~= after_count@.skip(32 * count));
    match read_block(after_coeffs, size) {
        Err(e) => Err(e),
        Ok((evaluations, rest)) => Ok(((polynomial, evaluations), rest)),
    }
}

/// Reads `count` pairs off the front of `buf`, each with a table of `size`
/// bytes, and returns them with the bytes that follow.
pub fn read_pairs(buf: &[u8], size: u64, count: usize) -> (r: Result<
    (Vec<(Polynomial, Evaluations)>, &[u8]),
    Error,
>)
    ensures
        match parse_pairs(buf@, size as nat, count as nat) {
            Ok((p, rest)) => r matches Ok((q, after)) && pair_views(q@) == p && after@ == rest
                && p.len() == count,
            Err(e) => r == Err::<(Vec<(Polynomial, Evaluations)>, &[u8]), Error>(e),
        },
{
    let mut pairs: Vec<(Polynomial, Evaluations)> = Vec::new();
    let mut rest: &[u8] = buf;
    let mut i: usize = 0;
    assert(pair_views(pairs@) =~= Seq::empty());
    while i < count
        invariant
            i <= count,
            pairs@.len() == i,
            parse_pairs(buf@, size as nat, count as nat) == match parse_pairs(
                rest@,
                size as nat,
                (count - i) as nat,
            ) {
                Err(e) => Err::<(Seq<PairView>, Seq<u8>), Error>(e),
                Ok((others, end)) => Ok((pair_views(pairs@) + others, end)),
            },
        decreases count - i,
    {
        match read_pair(rest, size) {
            Err(e) => {
                return Err(e);
            },
            Ok((pair, after)) => {
                proof {
                    let seen = pair_views(pairs@);
                    assert(pair_views(pairs@.push(pair)) =~= seen + seq![pair@]);
                    match parse_pairs(after@, size as nat, (count - i - 1) as nat) {
                        Ok((others, _)) => {
                            assert(seen + (seq![pair@] + others) =~= (seen + seq![pair@])
                                + others);
                        },
                        Err(_) => {},
                    }
                }
                pairs.push(pair);
                rest = after;
                i = i + 1;
            },
        }
    }
    assert(pair_views(pairs@) + Seq::empty() =~= pair_views(pairs@));
    Ok((pairs, rest))
}

/// A copy of a pair.
pub fn clone_pair(pair: &(Polynomial, Evaluations)) -> (r: (Polynomial, Evaluations))
    ensures
        r@ == pair@,
{
    (pair.0.clone(), pair.1.clone())
}

/// Appends the encoding of a pair to `out`.
pub fn write_pair(out: &mut Vec<u8>, pair: &(Polynomial, Evaluations))
    ensures
        final(out)@ == old(out)@ + pair_encoding(pair@),
        pair_wf(pair@),
        pair@.0.len() <= u64::MAX,
{
    let coeffs = pair.0.to_var_bytes();
    let table = pair.1.to_var_bytes();
    append_le(out, pair.0.len() as u64, 8);
    append_bytes(out, coeffs.as_slice());
    append_bytes(out, table.as_slice());
    assert(out@ =~= old(out)@ + pair_encoding(pair@));
}

} // verus!
