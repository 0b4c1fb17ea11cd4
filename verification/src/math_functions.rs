//! The mathematical operators that are called by name.

use vstd::prelude::*;
use crate::comparison::same_text;
use crate::environment::Variables;
use crate::error::EvalError;
use crate::evaluator::{eval_literal, math_function_of, result_of, state_of};
use crate::host::{Calculation, Host};
use crate::literals::{Literal, models};
use crate::semantics::{Outcome, double_argument_outcome, lenient, single_argument_outcome};

verus! {

/// Evaluates a mathematical operator of one operand. See
/// [`single_argument_outcome`].
pub fn eval_operator_with_single_arg<
    C: Fn(Calculation) -> u64,
    T: Fn(u64) -> i64,
    R: Fn(u64) -> String,
>(
    list: &Vec<Literal>,
    variables: &mut Variables,
    deleted: &mut Vec<Literal>,
    output: &mut Vec<String>,
    depth: usize,
    host: &Host<C, T, R>,
) -> (result: Result<Literal, EvalError>)
    requires
        host.well_formed(),
    ensures
        (Outcome {
            result: result_of(result),
            state: state_of(final(variables)@, final(deleted)@, final(output)@),
        }) == single_argument_outcome(
            lenient(host.numbers()),
            models(list@),
            state_of(old(variables)@, old(deleted)@, old(output)@),
            depth as nat,
        ),
    decreases depth, 2nat,
{
    if list.len() == 0 {
        return Err(EvalError::ArityMismatch);
    }
    assert(models(list@)[0] == list@[0]@);
    let name = match &list[0] {
        Literal::Symbol(name) => name,
        _ => {
            return Err(EvalError::TypeMismatch);
        },
    };
    if list.len() != 2 {
        return Err(EvalError::ArityMismatch);
    }
    match eval_literal(&list[1], variables, deleted, output, depth, host) {
        Ok(Literal::Number(bits)) => match math_function_of(name.as_str()) {
            Some(function) => Ok(
                Literal::Number(host.calculate(Calculation::Function(function, bits))),
            ),
            None => Err(EvalError::UnknownOperator),
        },
        Ok(_) => Err(EvalError::TypeMismatch),
        Err(e) => Err(e),
    }
}

/// Evaluates a mathematical operator of two operands. See
/// [`double_argument_outcome`].
pub fn eval_operator_with_double_argument<
    C: Fn(Calculation) -> u64,
    T: Fn(u64) -> i64,
    R: Fn(u64) -> String,
>(
    list: &Vec<Literal>,
    variables: &mut Variables,
    deleted: &mut Vec<Literal>,
    output: &mut Vec<String>,
    depth: usize,
    host: &Host<C, T, R>,
) -> (result: Result<Literal, EvalError>)
    requires
        host.well_formed(),
    ensures
        (Outcome {
            result: result_of(result),
            state: state_of(final(variables)@, final(deleted)@, final(output)@),
        }) == double_argument_outcome(
            lenient(host.numbers()),
            models(list@),
            state_of(old(variables)@, old(deleted)@, old(output)@),
            depth as nat,
        ),
    decreases depth, 2nat,
{
    if list.len() == 0 {
        return Err(EvalError::ArityMismatch);
    }
    assert(models(list@)[0] == list@[0]@);
    let name = match &list[0] {
        Literal::Symbol(name) => name,
        _ => {
            return Err(EvalError::TypeMismatch);
        },
    };
    if list.len() != 3 {
        return Err(EvalError::ArityMismatch);
    }
    let left = match eval_literal(&list[1], variables, deleted, output, depth, host) {
        Ok(Literal::Number(bits)) => bits,
        Ok(_) => {
            return Err(EvalError::TypeMismatch);
        },
        Err(e) => {
            return Err(e);
        },
    };
    let right = match eval_literal(&list[2], variables, deleted, output, depth, host) {
        Ok(Literal::Number(bits)) => bits,
        Ok(_) => {
            return Err(EvalError::TypeMismatch);
        },
        Err(e) => {
            return Err(e);
        },
    };
    if same_text(name.as_str(), "mod") {
        Ok(Literal::Number(host.calculate(Calculation::Remainder(left, right))))
    } else {
        Err(EvalError::UnknownOperator)
    }
}

} // verus!
