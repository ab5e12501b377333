//! Gaussian (normal) distributions as an exponential family, over exact
//! rational linear algebra.
//!
//! A Gaussian is carried either in moment form (mean and covariance) or in
//! natural form (information vector and precision matrix); the two are
//! interconvertible, and fusion of independent beliefs is exact addition of
//! natural parameters.  All arithmetic is exact: a matrix is a grid of
//! integers over one positive common denominator, so every contract here is
//! an equality, not an approximation.

use vstd::prelude::*;

pub mod mat;
pub mod gaussian;
pub mod laws;

verus! {

/// The two ways an operation of this library can fail.
#[derive(Clone, Copy, Debug, PartialEq, Eq, Structural)]
pub enum GaussianError {
    /// Vector or matrix shapes disagree; always a caller bug, detected before
    /// any numeric work.
    DimensionMismatch,
    /// A matrix that had to be inverted admitted no inverse, or a value left
    /// the representable range while computing (the exact-arithmetic analogue
    /// of accumulated numerical error).
    SingularMatrix,
}

} // verus!
