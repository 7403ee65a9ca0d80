//! The metadata of an evaluation domain, as it travels with every table of
//! evaluations.

use crate::bytes::{append_le, concat, le_encoding, le_read, le_value};
use crate::bytes::{lemma_le_encoding_len, lemma_parse_u32_of_encoding, lemma_parse_u64_of_encoding};
use crate::error::Error;
use crate::scalar::{all_canonical, append_scalars, parse_scalars, read_scalars, scalar_views};
use crate::scalar::{lemma_parse_scalars_inverts, lemma_parse_scalars_of_encoding};
use crate::scalar::{lemma_scalars_encoding_len, Scalar};
use vstd::prelude::*;
use vstd::slice::slice_subrange;

verus! {

/// The number of bytes of an encoded domain: an eight-byte size, a four-byte
/// logarithm and five scalars.
pub const DOMAIN_SIZE: usize = 172;

/// A multiplicative subgroup of the scalar field over which polynomials are
/// evaluated. The key layer carries these numbers and never computes with
/// them.
#[derive(Clone, Copy, Debug, PartialEq, Eq)]
pub struct EvaluationDomain {
    /// The number of points of the domain.
    pub size: u64,
    /// The base-two logarithm of `size`.
    pub log_size_of_group: u32,
    /// `size` as a field element.
    pub size_as_field_element: Scalar,
    /// The inverse of `size` in the field.
    pub size_inv: Scalar,
    /// A generator of the subgroup.
    pub group_gen: Scalar,
    /// The inverse of `group_gen`.
    pub group_gen_inv: Scalar,
    /// The inverse of the field's multiplicative generator.
    pub generator_inv: Scalar,
}

/// What an [`EvaluationDomain`] stands for: its two integers and the
/// encodings of its five field elements.
pub struct EvaluationDomainView {
    pub size: u64,
    pub log_size_of_group: u32,
    pub size_as_field_element: Seq<u8>,
    pub size_inv: Seq<u8>,
    pub group_gen: Seq<u8>,
    pub group_gen_inv: Seq<u8>,
    pub generator_inv: Seq<u8>,
}

impl EvaluationDomainView {
    /// The five field elements in the order in which they are encoded.
    pub open spec fn field_elements(self) -> Seq<Seq<u8>> {
        seq![
            self.size_as_field_element,
            self.size_inv,
            self.group_gen,
            self.group_gen_inv,
            self.generator_inv,
        ]
    }

    /// Every field element is canonical.
    pub open spec fn wf(self) -> bool {
        all_canonical(self.field_elements())
    }

    /// The bytes that stand for this domain.
    pub open spec fn encoding(self) -> Seq<u8> {
        le_encoding(self.size as nat, 8) + le_encoding(self.log_size_of_group as nat, 4)
            + concat(self.field_elements())
    }
}

impl View for EvaluationDomain {
    type V = EvaluationDomainView;

    open spec fn view(&self) -> EvaluationDomainView {
        EvaluationDomainView {
            size: self.size,
            log_size_of_group: self.log_size_of_group,
            size_as_field_element: self.size_as_field_element@,
            size_inv: self.size_inv@,
            group_gen: self.group_gen@,
            group_gen_inv: self.group_gen_inv@,
            generator_inv: self.generator_inv@,
        }
    }
}

/// Reading a domain off the front of `s`. A buffer under 172 bytes is too
/// short; after that only a field element can be at fault.
pub open spec fn parse_domain(s: Seq<u8>) -> Result<(EvaluationDomainView, Seq<u8>), Error> {
    if s.len() < 172 {
        Err(Error::BufferTooShort)
    } else {
        match parse_scalars(s.subrange(12, 172)) {
            Err(e) => Err(e),
            Ok(f) => Ok(
                (
                    EvaluationDomainView {
                        size: le_value(s.take(8)) as u64,
                        log_size_of_group: le_value(s.subrange(8, 12)) as u32,
                        size_as_field_element: f[0],
                        size_inv: f[1],
                        group_gen: f[2],
                        group_gen_inv: f[3],
                        generator_inv: f[4],
                    },
                    s.skip(172),
                ),
            ),
        }
    }
}

/// A well-formed domain takes 172 bytes.
pub proof fn lemma_domain_encoding_len(d: EvaluationDomainView)
    requires
        d.wf(),
    ensures
        d.encoding().len() == 172,
{
    lemma_le_encoding_len(d.size as nat, 8);
    lemma_le_encoding_len(d.log_size_of_group as nat, 4);
    lemma_scalars_encoding_len(d.field_elements());
}

/// A well-formed domain read from the front of its encoding followed by
/// anything is that domain, and what follows is left.
pub proof fn lemma_parse_domain_of_encoding(d: EvaluationDomainView, tail: Seq<u8>)
    requires
        d.wf(),
    ensures
        parse_domain(d.encoding() + tail) == Ok::<(EvaluationDomainView, Seq<u8>), Error>(
            (d, tail),
        ),
{
    let a = le_encoding(d.size as nat, 8);
    let b = le_encoding(d.log_size_of_group as nat, 4);
    let c = concat(d.field_elements());
    let s = d.encoding() + tail;
    lemma_domain_encoding_len(d);
    lemma_le_encoding_len(d.size as nat, 8);
    lemma_le_encoding_len(d.log_size_of_group as nat, 4);
    lemma_scalars_encoding_len(d.field_elements());
    lemma_parse_scalars_of_encoding(d.field_elements());
    assert(s.subrange(12, 172) =~= c);
    assert(s.skip(172) =~= tail);
    lemma_parse_u64_of_encoding(d.size, b + c + tail);
    assert(a + (b + c + tail) =~= s);
    lemma_parse_u32_of_encoding(d.log_size_of_group, c + tail);
    assert(s.skip(8) =~= b + (c + tail));
    assert(s.skip(8).take(4) =~= s.subrange(8, 12));
}

/// A domain that was read is well formed.
pub proof fn lemma_parsed_domain_is_well_formed(s: Seq<u8>)
    ensures
        parse_domain(s) matches Ok((d, rest)) ==> d.wf() && rest == s.skip(172) && s.len() >= 172,
{
    if let Ok((d, rest)) = parse_domain(s) {
        lemma_parse_scalars_inverts(s.subrange(12, 172));
        let f = parse_scalars(s.subrange(12, 172))->Ok_0;
        assert(d.field_elements() =~= f);
    }
}

impl EvaluationDomain {
    /// Appends the encoding of this domain to `out`.
    pub fn write(&self, out: &mut Vec<u8>)
        ensures
            final(out)@ == old(out)@ + self@.encoding(),
            self@.wf(),
    {
        append_le(out, self.size, 8);
        append_le(out, self.log_size_of_group as u64, 4);
        let elements = vec![
            self.size_as_field_element,
            self.size_inv,
            self.group_gen,
            self.group_gen_inv,
            self.generator_inv,
        ];
        assert(scalar_views(elements@) =~= self@.field_elements());
        append_scalars(out, &elements);
        assert(out@ =~= old(out)@ + self@.encoding());
    }

    /// Reads a domain off the front of `buf` and returns it with the bytes
    /// that follow.
    pub fn read(buf: &[u8]) -> (r: Result<(EvaluationDomain, &[u8]), Error>)
        ensures
            match parse_domain(buf@) {
                Ok((d, rest)) => r matches Ok((e, after)) && e@ == d && after@ == rest && d.wf(),
                Err(e) => r == Err::<(EvaluationDomain, &[u8]), Error>(e),
            },
    {
        if buf.len() < DOMAIN_SIZE {
            return Err(Error::BufferTooShort);
        }
        let size = le_read(buf, 8);
        let log_size_of_group = le_read(slice_subrange(buf, 8, 12), 4) as u32;
        let elements = read_scalars(slice_subrange(buf, 12, DOMAIN_SIZE))?;
        proof {
            lemma_parse_scalars_inverts(buf@.subrange(12, 172));
            assert(buf@.subrange(8, 12).take(4) =~= buf@.subrange(8, 12));
            crate::bytes::lemma_le_value_bound(buf@.take(8));
            crate::bytes::lemma_le_value_bound(buf@.subrange(8, 12));
            crate::bytes::lemma_le_bound_values();
        }
        let domain = EvaluationDomain {
            size,
            log_size_of_group,
            size_as_field_element: elements[0],
            size_inv: elements[1],
            group_gen: elements[2],
            group_gen_inv: elements[3],
            generator_inv: elements[4],
        };
        let rest = slice_subrange(buf, DOMAIN_SIZE, buf.len());
        proof {
            assert(rest@ =~= buf@.skip(172));
            assert(domain@.field_elements() =~= scalar_views(elements@));
        }
        Ok((domain, rest))
    }
}

} // verus!
