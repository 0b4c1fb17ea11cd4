//! The ways in which an evaluation fails.

use vstd::prelude::*;

verus! {

/// Why an evaluation failed.
#[derive(Debug, Clone, Copy, PartialEq, Eq, Structural)]
pub enum EvalError {
    /// A symbol is not bound in the environment.
    UnknownSymbol,
    /// An operand is not of the kind that the form requires.
    TypeMismatch,
    /// A form or a call has the wrong number of operands.
    ArityMismatch,
    /// An arithmetic operator has no operand.
    MissingOperand,
    /// The value to evaluate equals one that was deleted.
    DeletedLiteralUse,
    /// An operator name that no operator has.
    UnknownOperator,
    /// The evaluation nests deeper than the depth that it was given.
    DepthExceeded,
}

} // verus!
