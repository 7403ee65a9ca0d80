//! Elements of the BLS12-381 scalar field, held by their canonical encoding.

use crate::bytes::{append_bytes, concat, copy_prefix, le_value};
use crate::error::Error;
use dusk_bls12_381::BlsScalar;
use dusk_bytes::DeserializableSlice;
use vstd::prelude::*;
use vstd::slice::slice_subrange;

verus! {

/// The number of bytes of an encoded scalar.
pub const SCALAR_SIZE: usize = 32;

/// The order of the scalar field.
pub open spec fn scalar_modulus() -> nat {
    0x73eda753299d7d483339d80809a1d80553bda402fffe5bfeffffffff00000001nat
}

/// Whether `bytes` are the encoding of a field element: thirty-two bytes
/// that spell, least significant byte first, a number below the modulus.
pub open spec fn is_canonical_scalar(bytes: Seq<u8>) -> bool {
    bytes.len() == 32 && le_value(bytes) < scalar_modulus()
}

/// A scalar field element. The value kept is the element's canonical
/// little-endian encoding, which is what the codec reads and writes; its view
/// is that encoding.
#[derive(Clone, Copy, Debug, PartialEq, Eq)]
pub struct Scalar {
    bytes: [u8; SCALAR_SIZE],
}

impl View for Scalar {
    type V = Seq<u8>;

    closed spec fn view(&self) -> Seq<u8> {
        self.bytes@
    }
}

impl Scalar {
    /// Every scalar holds the encoding of a field element.
    #[verifier::type_invariant]
    pub open spec fn holds_canonical_bytes(self) -> bool {
        is_canonical_scalar(self@)
    }

    /// Decodes a scalar; fails on bytes that spell the modulus or more.
    pub fn from_bytes(bytes: &[u8; SCALAR_SIZE]) -> (r: Result<Scalar, Error>)
        ensures
            is_canonical_scalar(bytes@) ==> (r matches Ok(s) && s@ == bytes@),
            !is_canonical_scalar(bytes@) ==> r == Err::<Scalar, Error>(Error::InvalidScalar),
    {
        if bls_scalar_accepts(bytes) {
            Ok(Scalar { bytes: *bytes })
        } else {
            Err(Error::InvalidScalar)
        }
    }

    /// The canonical encoding of this scalar.
    pub fn to_bytes(&self) -> (r: [u8; SCALAR_SIZE])
        ensures
            r@ == self@,
            is_canonical_scalar(r@),
    {
        proof {
            use_type_invariant(self);
        }
        self.bytes
    }
}

/// The encodings that a sequence of scalars stands for.
pub open spec fn scalar_views(scalars: Seq<Scalar>) -> Seq<Seq<u8>> {
    scalars.map_values(|s: Scalar| s@)
}

/// Whether every member of `scalars` is the encoding of a field element.
pub open spec fn all_canonical(scalars: Seq<Seq<u8>>) -> bool {
    forall|i: int| 0 <= i < scalars.len() ==> is_canonical_scalar(#[trigger] scalars[i])
}

/// Reading one scalar off the front of `s`.
pub open spec fn parse_scalar(s: Seq<u8>) -> Result<(Seq<u8>, Seq<u8>), Error> {
    if s.len() < 32 {
        Err(Error::BufferTooShort)
    } else if !is_canonical_scalar(s.take(32)) {
        Err(Error::InvalidScalar)
    } else {
        Ok((s.take(32), s.skip(32)))
    }
}

/// Reading all of `s` as scalars, one after the other. The first scalar that
/// cannot be read decides the error.
pub open spec fn parse_scalars(s: Seq<u8>) -> Result<Seq<Seq<u8>>, Error>
    decreases s.len(),
{
    if s.len() == 0 {
        Ok(Seq::empty())
    } else {
        match parse_scalar(s) {
            Err(e) => Err(e),
            Ok((first, rest)) => match parse_scalars(rest) {
                Err(e) => Err(e),
                Ok(others) => Ok(seq![first] + others),
            },
        }
    }
}

/// A scalar read from the front of its encoding followed by anything is that
/// scalar, and what follows is left.
pub proof fn lemma_parse_scalar_of_encoding(scalar: Seq<u8>, tail: Seq<u8>)
    requires
        is_canonical_scalar(scalar),
    ensures
        parse_scalar(scalar + tail) == Ok::<(Seq<u8>, Seq<u8>), Error>((scalar, tail)),
{
    assert((scalar + tail).take(32) =~= scalar);
    assert((scalar + tail).skip(32) =~= tail);
}

/// Scalars take thirty-two bytes each.
pub proof fn lemma_scalars_encoding_len(scalars: Seq<Seq<u8>>)
    requires
        all_canonical(scalars),
    ensures
        concat(scalars).len() == 32 * scalars.len(),
    decreases scalars.len(),
{
    if scalars.len() > 0 {
        assert(is_canonical_scalar(scalars[0]));
        lemma_scalars_encoding_len(scalars.drop_first());
    }
}

/// Reading the encoding of canonical scalars gives them back.
pub proof fn lemma_parse_scalars_of_encoding(scalars: Seq<Seq<u8>>)
    requires
        all_canonical(scalars),
    ensures
        parse_scalars(concat(scalars)) == Ok::<Seq<Seq<u8>>, Error>(scalars),
    decreases scalars.len(),
{
    if scalars.len() == 0 {
        assert(scalars =~= Seq::empty());
    } else {
        let tail = concat(scalars.drop_first());
        assert(is_canonical_scalar(scalars[0]));
        lemma_parse_scalar_of_encoding(scalars[0], tail);
        lemma_parse_scalars_of_encoding(scalars.drop_first());
        assert(seq![scalars[0]] + scalars.drop_first() =~= scalars);
    }
}

/// What was read from `s` is canonical, and `s` is its encoding.
pub proof fn lemma_parse_scalars_inverts(s: Seq<u8>)
    ensures
        parse_scalars(s) matches Ok(scalars) ==> all_canonical(scalars) && concat(
            scalars,
        ) == s && s.len() == 32 * scalars.len(),
    decreases s.len(),
{
    if s.len() == 0 {
        assert(concat(Seq::<Seq<u8>>::empty()) =~= s);
    } else if let Ok(scalars) = parse_scalars(s) {
        let first = s.take(32);
        let rest = s.skip(32);
        lemma_parse_scalars_inverts(rest);
        let others = parse_scalars(rest)->Ok_0;
        assert(scalars == seq![first] + others);
        assert(scalars.drop_first() =~= others);
        assert(first + rest =~= s);
    }
}

/// Reads one scalar off the front of `buf` and returns it with the bytes
/// that follow.
pub fn read_scalar(buf: &[u8]) -> (r: Result<(Scalar, &[u8]), Error>)
    ensures
        match parse_scalar(buf@) {
            Ok((x, rest)) => r matches Ok((y, after)) && y@ == x && after@ == rest,
            Err(e) => r == Err::<(Scalar, &[u8]), Error>(e),
        },
{
    if buf.len() < SCALAR_SIZE {
        return Err(Error::BufferTooShort);
    }
    let head: [u8; SCALAR_SIZE] = copy_prefix(buf);
    match Scalar::from_bytes(&head) {
        Err(e) => Err(e),
        Ok(scalar) => {
            let rest = slice_subrange(buf, SCALAR_SIZE, buf.len());
            assert(rest@ =~= buf@.skip(32));
            Ok((scalar, rest))
        },
    }
}

/// Reads all of `buf` as scalars.
pub fn read_scalars(buf: &[u8]) -> (r: Result<Vec<Scalar>, Error>)
    ensures
        match parse_scalars(buf@) {
            Ok(v) => r matches Ok(w) && scalar_views(w@) == v,
            Err(e) => r == Err::<Vec<Scalar>, Error>(e),
        },
{
    let mut scalars: Vec<Scalar> = Vec::new();
    let mut rest: &[u8] = buf;
    while rest.len() > 0
        invariant
            parse_scalars(buf@) == match parse_scalars(rest@) {
                Err(e) => Err::<Seq<Seq<u8>>, Error>(e),
                Ok(others) => Ok(scalar_views(scalars@) + others),
            },
        decreases rest@.len(),
    {
        match read_scalar(rest) {
            Err(e) => {
                return Err(e);
            },
            Ok((scalar, after)) => {
                proof {
                    let seen = scalar_views(scalars@);
                    assert(scalar_views(scalars@.push(scalar)) =~= seen + seq![scalar@]);
                    match parse_scalars(after@) {
                        Ok(others) => {
                            assert(seen + (seq![scalar@] + others) =~= (seen + seq![scalar@])
                                + others);
                        },
                        Err(_) => {},
                    }
                }
                scalars.push(scalar);
                rest = after;
            },
        }
    }
    assert(scalar_views(scalars@) + Seq::<Seq<u8>>::empty() =~= scalar_views(scalars@));
    Ok(scalars)
}

/// Appends the encodings of `scalars` to `out`.
pub fn append_scalars(out: &mut Vec<u8>, scalars: &Vec<Scalar>)
    ensures
        final(out)@ == old(out)@ + concat(scalar_views(scalars@)),
        all_canonical(scalar_views(scalars@)),
{
    let ghost views = scalar_views(scalars@);
    let mut i: usize = 0;
    assert(views.skip(0) =~= views);
    while i < scalars.len()
        invariant
            i <= scalars@.len(),
            views == scalar_views(scalars@),
            old(out)@ + concat(views) == out@ + concat(views.skip(i as int)),
            forall|j: int| 0 <= j < i ==> is_canonical_scalar(#[trigger] views[j]),
        decreases scalars@.len() - i,
    {
        let bytes = scalars[i].to_bytes();
        proof {
            let left = views.skip(i as int);
            assert(left[0] == bytes@);
            assert(left.drop_first() =~= views.skip(i + 1));
            assert(out@ + (bytes@ + concat(views.skip(i + 1))) =~= (out@ + bytes@)
                + concat(views.skip(i + 1)));
        }
        append_bytes(out, bytes.as_slice());
        i = i + 1;
    }
    assert(views.skip(i as int) =~= Seq::<Seq<u8>>::empty());
    assert(out@ + Seq::<u8>::empty() =~= out@);
}

/// Whether `dusk_bls12_381` decodes `bytes` as a scalar. The call is
/// `BlsScalar::from_slice`, which `dusk_bytes` provides for every type with a
/// fixed-size codec: given at least thirty-two bytes it hands the first
/// thirty-two to `BlsScalar::from_bytes`. That function reads them as four
/// little-endian 64-bit words, subtracts the modulus with borrow, and
/// fails exactly when no borrow is left: when the number is the modulus or
/// more. Nothing but the success of the call is used.
#[verifier::external_body]
fn bls_scalar_accepts(bytes: &[u8; SCALAR_SIZE]) -> (r: bool)
    ensures
        r == is_canonical_scalar(bytes@),
{
    BlsScalar::from_slice(bytes).is_ok()
}

} // verus!
