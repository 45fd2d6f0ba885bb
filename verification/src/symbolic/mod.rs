//! Symbolic expressions over the cells of an AIR's trace, and their DAG form.

pub mod codec;
pub mod dag;
pub mod evaluation;
pub mod evaluator;
pub mod expression;
pub mod variable;
