//! Compiles finite-field polynomial expressions into a deduplicated graph of
//! primitive calculations and evaluates that graph row by row.

pub mod data;
pub mod expression;
pub mod field;
pub mod graph;
pub mod evaluator;
pub mod laws;
pub mod modarith;
pub mod soundness;
