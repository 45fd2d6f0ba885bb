//! The prover's side: evaluation of the constraints on the quotient
//! domain.

pub mod device;
pub mod evaluator;
pub mod packed;
pub mod quotient;
pub mod types;
