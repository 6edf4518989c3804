//! Exact evaluation of M(N) = sum of A(i, j) over 1 <= i <= j <= N, where
//! A(i, j) is the minimum of a deterministic squaring-modulo value sequence
//! over positions i..j.
//!
//! Three evaluators share one mathematical specification (`sums::msum`):
//! a brute-force double sum (`initial`), a linear-time monotonic-stack
//! aggregator (`linear`), and a periodicity-based closed-form extrapolator
//! (`cycle`) that answers for huge N in time bounded by the cycle length.

pub mod bignat;
pub mod cycle;
pub mod generator;
pub mod initial;
pub mod linear;
pub mod periodic;
pub mod sums;
