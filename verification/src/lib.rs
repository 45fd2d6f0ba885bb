//! Symbolic constraint DAGs for multi-AIR STARKs and the quotient-polynomial
//! evaluation engine that interprets them.

pub mod domain;
pub mod field;
pub mod folder;
pub mod interaction;
pub mod keygen;
pub mod matrix;
pub mod prover;
pub mod rap;
pub mod sdk;
pub mod symbolic;
pub mod utils;
