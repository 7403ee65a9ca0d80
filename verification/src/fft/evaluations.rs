//! Polynomials in evaluation form: the values over a domain, with the domain.

use crate::bytes::concat;
use crate::error::Error;
use crate::fft::domain::{lemma_domain_encoding_len, lemma_parse_domain_of_encoding};
use crate::fft::domain::lemma_parsed_domain_is_well_formed;
use crate::fft::domain::{parse_domain, EvaluationDomain, EvaluationDomainView};
use crate::scalar::{all_canonical, append_scalars, parse_scalars, read_scalars, scalar_views};
use crate::scalar::{lemma_parse_scalars_inverts, lemma_parse_scalars_of_encoding};
use crate::scalar::lemma_scalars_encoding_len;
use crate::scalar::Scalar;
use vstd::prelude::*;

verus! {

/// The values of a polynomial over an evaluation domain.
#[derive(Debug, PartialEq, Eq)]
pub struct Evaluations {
    /// The values, in the order of the domain's points.
    pub evals: Vec<Scalar>,
    /// The domain that the values were computed over.
    pub domain: EvaluationDomain,
}

/// What an [`Evaluations`] stands for: the encodings of its values, and its
/// domain.
pub struct EvaluationsView {
    pub evals: Seq<Seq<u8>>,
    pub domain: EvaluationDomainView,
}

impl EvaluationsView {
    /// The domain is well formed and every value is canonical.
    pub open spec fn wf(self) -> bool {
        self.domain.wf() && all_canonical(self.evals)
    }

    /// The bytes that stand for this table: the domain, then the values.
    pub open spec fn encoding(self) -> Seq<u8> {
        self.domain.encoding() + concat(self.evals)
    }
}

impl View for Evaluations {
    type V = EvaluationsView;

    open spec fn view(&self) -> EvaluationsView {
        EvaluationsView { evals: scalar_views(self.evals@), domain: self.domain@ }
    }
}

/// Reading all of `block` as a table of evaluations: a domain, then scalars
/// to the end.
pub open spec fn parse_evaluations(block: Seq<u8>) -> Result<EvaluationsView, Error> {
    match parse_domain(block) {
        Err(e) => Err(e),
        Ok((domain, rest)) => match parse_scalars(rest) {
            Err(e) => Err(e),
            Ok(evals) => Ok(EvaluationsView { evals, domain }),
        },
    }
}

/// A well-formed table takes 172 bytes and thirty-two more for each value.
pub proof fn lemma_evaluations_encoding_len(e: EvaluationsView)
    requires
        e.wf(),
    ensures
        e.encoding().len() == 172 + 32 * e.evals.len(),
{
    lemma_domain_encoding_len(e.domain);
    lemma_scalars_encoding_len(e.evals);
}

/// Reading the encoding of a well-formed table gives the table back.
pub proof fn lemma_parse_evaluations_of_encoding(e: EvaluationsView)
    requires
        e.wf(),
    ensures
        parse_evaluations(e.encoding()) == Ok::<EvaluationsView, Error>(e),
{
    lemma_parse_domain_of_encoding(e.domain, concat(e.evals));
    lemma_parse_scalars_of_encoding(e.evals);
}

/// A table that was read is well formed, and the block it was read from
/// has the length of its encoding.
pub proof fn lemma_parsed_evaluations_are_well_formed(block: Seq<u8>)
    ensures
        parse_evaluations(block) matches Ok(e) ==> e.wf() && block.len() == 172 + 32
            * e.evals.len(),
{
    if let Ok(e) = parse_evaluations(block) {
        lemma_parsed_domain_is_well_formed(block);
        lemma_parse_scalars_inverts(block.skip(172));
    }
}

impl Clone for Evaluations {
    fn clone(&self) -> (r: Self)
        ensures
            r@ == self@,
    {
        let evals = self.evals.clone();
        assert(scalar_views(evals@) =~= scalar_views(self.evals@));
        Evaluations { evals, domain: self.domain }
    }
}

impl Evaluations {
    /// Puts values and their domain together.
    pub fn from_vec_and_domain(evals: Vec<Scalar>, domain: EvaluationDomain) -> (r: Evaluations)
        ensures
            r.evals == evals,
            r.domain == domain,
    {
        Evaluations { evals, domain }
    }

    /// The encoding of this table.
    pub fn to_var_bytes(&self) -> (r: Vec<u8>)
        ensures
            r@ == self@.encoding(),
            self@.wf(),
    {
        let mut out: Vec<u8> = Vec::new();
        self.domain.write(&mut out);
        append_scalars(&mut out, &self.evals);
        assert(out@ =~= self@.encoding());
        out
    }

    /// Reads all of `bytes` as a table of evaluations.
    pub fn from_slice(bytes: &[u8]) -> (r: Result<Evaluations, Error>)
        ensures
            match parse_evaluations(bytes@) {
                Ok(e) => r matches Ok(t) && t@ == e,
                Err(e) => r == Err::<Evaluations, Error>(e),
            },
    {
        let (domain, rest) = EvaluationDomain::read(bytes)?;
        match read_scalars(rest) {
            Err(e) => Err(e),
            Ok(evals) => Ok(Evaluations { evals, domain }),
        }
    }
}

} // verus!
