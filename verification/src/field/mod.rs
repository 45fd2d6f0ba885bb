//! The base field, the prime field of order `2^31 - 2^27 + 1`, and its
//! extension of degree four.

pub mod base;
pub mod extension;
