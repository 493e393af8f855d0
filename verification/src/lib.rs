//! A verified calculator core: an input accumulator that turns button
//! presses into an arithmetic expression, and an evaluator that parses
//! and computes the expression over exact rationals.

pub mod calc;
pub mod chars;
pub mod errors;
pub mod eval;
pub mod laws;
pub mod rat;
pub mod render;
pub mod roundtrip;
