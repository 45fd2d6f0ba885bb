//! Evaluation of the quotient polynomial of an AIR on its quotient
//! domain.

pub mod committer;
pub mod context;
pub mod packing;
pub mod single;
