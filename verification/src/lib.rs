//! Sum-check protocol over a prime field: a prover convinces a verifier that
//! the sum of a multilinear polynomial's evaluations over the boolean
//! hypercube equals a claimed value, via one univariate round polynomial per
//! variable and Fiat-Shamir derived challenges.

pub mod field;
pub mod multilinear;
pub mod transcript;
pub mod univariate;
pub mod composed;
pub mod sum_check_protocol;
