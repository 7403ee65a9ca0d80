//! Polynomials over the scalar field in coefficient and in evaluation form,
//! as far as the keys hold and encode them.

pub mod domain;
pub mod evaluations;
pub mod polynomial;
