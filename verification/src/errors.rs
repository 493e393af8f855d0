//! The error taxonomy of the expression evaluator.

use vstd::prelude::*;

verus! {

/// Why an expression failed to evaluate.
///
/// `Empty` is reported for an empty expression, `Syntax` for one that
/// does not follow the grammar, `DivideByZero` when a division or
/// modulo has a zero right-hand operand, and `Overflow` when an exact
/// intermediate value does not fit the machine representation.
#[derive(Clone, Copy, Debug, PartialEq, Eq, Structural)]
pub enum EvalError {
    Empty,
    Syntax,
    DivideByZero,
    Overflow,
}

} // verus!
