//! Polynomials in coefficient form.

use crate::bytes::concat;
use crate::error::Error;
use crate::scalar::{append_scalars, parse_scalars, read_scalars, scalar_views};
use crate::scalar::{all_canonical, Scalar};
use vstd::prelude::*;

verus! {

/// A polynomial over the scalar field, given by its coefficients from the
/// constant term up. Its view is the sequence of the coefficients' encodings.
#[derive(Debug, PartialEq, Eq)]
pub struct Polynomial {
    /// The coefficients, constant term first.
    pub coeffs: Vec<Scalar>,
}

impl View for Polynomial {
    type V = Seq<Seq<u8>>;

    open spec fn view(&self) -> Seq<Seq<u8>> {
        scalar_views(self.coeffs@)
    }
}

impl Clone for Polynomial {
    fn clone(&self) -> (r: Self)
        ensures
            r@ == self@,
    {
        let coeffs = self.coeffs.clone();
        assert(scalar_views(coeffs@) =~= scalar_views(self.coeffs@));
        Polynomial { coeffs }
    }
}

impl Polynomial {
    /// The number of coefficients.
    pub fn len(&self) -> (r: usize)
        ensures
            r == self@.len(),
    {
        self.coeffs.len()
    }

    /// The coefficients' encodings, one after the other.
    pub fn to_var_bytes(&self) -> (r: Vec<u8>)
        ensures
            r@ == concat(self@),
            all_canonical(self@),
    {
        let mut out: Vec<u8> = Vec::new();
        append_scalars(&mut out, &self.coeffs);
        assert(Seq::<u8>::empty() + concat(self@) =~= concat(self@));
        out
    }

    /// Reads all of `bytes` as coefficients. No bytes make the empty
    /// polynomial.
    pub fn from_slice(bytes: &[u8]) -> (r: Result<Polynomial, Error>)
        ensures
            match parse_scalars(bytes@) {
                Ok(coeffs) => r matches Ok(p) && p@ == coeffs,
                Err(e) => r == Err::<Polynomial, Error>(e),
            },
    {
        match read_scalars(bytes) {
            Err(e) => Err(e),
            Ok(coeffs) => Ok(Polynomial { coeffs }),
        }
    }
}

} // verus!
