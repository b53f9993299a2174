//! Exact rational arithmetic on 128-bit integers, and the search for disc
//! arrangements that it was made for.
//!
//! A [`fraction::Fraction`] is a signed numerator over a strictly positive
//! denominator. Its operations are specified against the mathematical model
//! in [`ratio`]; the number theory that the proofs rest on lives in
//! [`divisors`], and [`laws`] states what holds of the operations together.
//! [`search`] and [`arrangement`] look for numbers of blue discs for which
//! two discs drawn from all are both blue with a chance of one half.
use vstd::prelude::*;

pub mod arrangement;
pub mod divisors;
pub mod euclid;
pub mod fraction;
pub mod laws;
pub mod ratio;
pub mod search;
pub mod signed;
