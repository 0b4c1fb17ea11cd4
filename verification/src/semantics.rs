//! What evaluation means: for each form, the outcome as a function of the
//! form, the state before it and the rules, which hold the answers of the
//! host.
//!
//! An outcome is a result together with the state after the evaluation. A
//! failure keeps the state that the evaluation had reached.

use vstd::prelude::*;
use crate::comparison::{Order, contains_value, is_nan, number_order, value_eq, value_order};
use crate::error::EvalError;
use crate::host::{Calculation, MathFunction, Numbers};
use crate::literals::{MathOperators, Operator, Value};
use crate::text::{rendered, unescaped};

verus! {

/// What an evaluation works on: the environment, the deleted values in the
/// order of their deletion, and the texts written so far, which are to go
/// to the standard output as they are, one after another.
pub struct State {
    pub variables: Map<Seq<char>, Value>,
    pub deleted: Seq<Value>,
    pub output: Seq<Seq<char>>,
}

/// The result of an evaluation and the state after it.
pub struct Outcome {
    pub result: Result<Value, EvalError>,
    pub state: State,
}

/// The results of evaluating several expressions in order, and the state
/// after them.
pub struct Collected {
    pub result: Result<Seq<Value>, EvalError>,
    pub state: State,
}

/// What an evaluation goes by: the answers of the host, and what `filter`
/// makes of a call that exceeds the depth.
pub struct Rules {
    pub numbers: Numbers,
    /// Whether a call that exceeds the depth ends a `filter`. Where it does
    /// not, the item of that call is left out as with any failing call.
    pub cut_ends_filter: bool,
}

/// The rules of the evaluator: a call that exceeds the depth does not end a
/// `filter`.
pub open spec fn lenient(numbers: Numbers) -> Rules {
    Rules { numbers: numbers, cut_ends_filter: false }
}

/// The rules under which a call that exceeds the depth ends a `filter`. No
/// failure by depth goes unseen under them.
pub open spec fn strict(numbers: Numbers) -> Rules {
    Rules { numbers: numbers, cut_ends_filter: true }
}

/// The outcome of an evaluation that gave a value.
pub open spec fn done(v: Value, s: State) -> Outcome {
    Outcome { result: Ok(v), state: s }
}

/// The outcome of an evaluation that failed.
pub open spec fn failed(e: EvalError, s: State) -> Outcome {
    Outcome { result: Err(e), state: s }
}

/// The function that a name of the one-operand mathematical operators
/// stands for.
pub open spec fn math_function_named(name: Seq<char>) -> Option<MathFunction> {
    if name == "sqrt"@ {
        Some(MathFunction::Sqrt)
    } else if name == "sin"@ {
        Some(MathFunction::Sin)
    } else if name == "cos"@ {
        Some(MathFunction::Cos)
    } else if name == "tan"@ {
        Some(MathFunction::Tan)
    } else if name == "abs"@ {
        Some(MathFunction::Abs)
    } else if name == "log10"@ {
        Some(MathFunction::Log10)
    } else if name == "floor"@ {
        Some(MathFunction::Floor)
    } else if name == "ceil"@ {
        Some(MathFunction::Ceil)
    } else if name == "round"@ {
        Some(MathFunction::Round)
    } else {
        None
    }
}

/// Whether a name is that of a vector operator.
pub open spec fn is_vector_operator(name: Seq<char>) -> bool {
    name == "nth"@ || name == "join"@ || name == "push"@ || name == "range"@ || name == "map"@
        || name == "filter"@
}

/// Whether a relation holds between two values.
pub open spec fn relation_holds(op: Operator, left: Value, right: Value) -> bool {
    match op {
        Operator::Equal => value_eq(left, right),
        Operator::NotEqual => !value_eq(left, right),
        Operator::LessThan => value_order(left, right) == Some(Order::Less),
        Operator::BiggerThan => value_order(left, right) == Some(Order::Greater),
        Operator::LessOrEqualThan => value_order(left, right) == Some(Order::Less) || value_order(
            left,
            right,
        ) == Some(Order::Equal),
        Operator::BiggerOrEqualThan => value_order(left, right) == Some(Order::Greater)
            || value_order(left, right) == Some(Order::Equal),
    }
}

/// The text that `str` and `print` give a value: a string with its escapes
/// resolved, anything else rendered.
pub open spec fn displayed(numbers: Numbers, v: Value) -> Seq<char> {
    match v {
        Value::String(text) => unescaped(text, 0),
        _ => rendered(numbers, v),
    }
}

/// The displayed texts of some values, in order.
pub open spec fn displayed_all(numbers: Numbers, values: Seq<Value>) -> Seq<Seq<char>> {
    Seq::new(values.len(), |i: int| displayed(numbers, values[i]))
}

/// What `print` writes for some values: the displayed text of each,
/// followed by one space.
pub open spec fn printed(numbers: Numbers, values: Seq<Value>) -> Seq<Seq<char>> {
    Seq::new(values.len(), |i: int| displayed(numbers, values[i]) + " "@)
}

/// The symbols among values.
pub open spec fn symbols() -> spec_fn(Value) -> bool {
    |v: Value| v is Symbol
}

/// The name of a symbol.
pub open spec fn name_of() -> spec_fn(Value) -> Seq<char> {
    |v: Value| v->Symbol_0
}

/// The names of the parameters that a vector of a function definition
/// gives: those of its symbols, in order. A `Void` among them is passed
/// over, and anything else is no parameter.
pub open spec fn parameter_names(params: Seq<Value>) -> Option<Seq<Seq<char>>> {
    if forall|i: int|
        0 <= i < params.len() ==> (#[trigger] params[i]) is Void || params[i] is Symbol {
        Some(params.filter(symbols()).map_values(name_of()))
    } else {
        None
    }
}

/// The environment with each parameter from position `from` on bound to the
/// value at its position.
pub open spec fn bound(
    variables: Map<Seq<char>, Value>,
    params: Seq<Seq<char>>,
    values: Seq<Value>,
    from: nat,
) -> Map<Seq<char>, Value>
    decreases params.len() - from,
{
    if from >= params.len() || from >= values.len() {
        variables
    } else {
        bound(variables.insert(params[from as int], values[from as int]), params, values, from + 1)
    }
}

/// The position that `nth` takes from a number, if the number gives one: the
/// integer part of the number rounded to the nearest integer. A NaN gives
/// none, and so does a number that rounds to less than zero. Whether the
/// rounded number is a NaN or less than zero is read from its bits.
pub open spec fn index_of(numbers: Numbers, bits: u64) -> Option<int> {
    let rounded = (numbers.calculate)(Calculation::Function(MathFunction::Round, bits));
    let whole = (numbers.truncate)(rounded);
    if is_nan(bits) {
        None
    } else if number_order(rounded, 0) is None || number_order(rounded, 0) == Some(Order::Less) {
        None
    } else if whole < 0 {
        None
    } else {
        Some(whole as int)
    }
}

/// The item of a vector that `nth` gives for a number: the item at the
/// position that the number gives, and `Void` where it gives none or the
/// vector has no item there.
pub open spec fn item_at(numbers: Numbers, items: Seq<Value>, bits: u64) -> Value {
    match index_of(numbers, bits) {
        Some(at) => if at < items.len() {
            items[at]
        } else {
            Value::Void
        },
        None => Value::Void,
    }
}

/// The numbers of the `count` integers from `start` on.
pub open spec fn integers_from(numbers: Numbers, start: i64, count: nat) -> Seq<Value> {
    Seq::new(
        count,
        |k: int| Value::Number((numbers.calculate)(Calculation::FromInteger((start + k) as i64))),
    )
}

/// The numbers of the integers from `start` to `end`, both included; none if
/// `start` is greater than `end`.
pub open spec fn integers(numbers: Numbers, start: i64, end: i64) -> Seq<Value> {
    integers_from(
        numbers,
        start,
        if start <= end {
            (end - start + 1) as nat
        } else {
            0
        },
    )
}

/// The call of the function named `name` on one argument, as an expression.
pub open spec fn call_form(name: Seq<char>, argument: Value) -> Value {
    Value::List(seq![Value::Symbol(name), argument])
}

/// The outcome of evaluating a value.
///
/// A value that equals a deleted one is not evaluated. `Void`, numbers,
/// strings, booleans and vectors evaluate to themselves, and a symbol gives
/// the value that it is bound to. A list is evaluated as a form, one level
/// deeper, where the depth lets it. An operator, `If` or a function is no
/// expression.
pub open spec fn literal_outcome(rules: Rules, v: Value, s: State, depth: nat) -> Outcome
    decreases depth, 0nat, 0nat,
{
    if contains_value(s.deleted, v) {
        failed(EvalError::DeletedLiteralUse, s)
    } else {
        match v {
            Value::Void => done(v, s),
            Value::Number(_) => done(v, s),
            Value::String(_) => done(v, s),
            Value::Vector(_) => done(v, s),
            Value::Boolean(_) => done(v, s),
            Value::List(items) => if depth == 0 {
                failed(EvalError::DepthExceeded, s)
            } else {
                list_outcome(rules, items, s, (depth - 1) as nat)
            },
            Value::Symbol(name) => if s.variables.contains_key(name) {
                done(s.variables[name], s)
            } else {
                failed(EvalError::UnknownSymbol, s)
            },
            _ => failed(EvalError::TypeMismatch, s),
        }
    }
}

/// The outcome of evaluating a list as a form. Its first item decides.
pub open spec fn list_outcome(rules: Rules, list: Seq<Value>, s: State, depth: nat) -> Outcome
    decreases depth, 4nat, 0nat,
{
    if list.len() == 0 {
        done(Value::Void, s)
    } else {
        match list[0] {
            Value::List(inner) => if depth == 0 {
                failed(EvalError::DepthExceeded, s)
            } else {
                list_outcome(rules, inner, s, (depth - 1) as nat)
            },
            Value::Void => done(Value::Void, s),
            Value::MathOperator(_) => math_outcome(rules, list, s, depth),
            Value::BinaryOperator(_) => binary_operator_outcome(rules, list, s, depth),
            Value::If => if_outcome(rules, list, s, depth),
            Value::Vector(_) => literal_outcome(rules, list[0], s, depth),
            Value::Symbol(name) => if name == "fn"@ {
                function_definition_outcome(list, s)
            } else if name == "define"@ {
                define_outcome(rules, list, s, depth)
            } else if name == "print"@ {
                print_outcome(rules, list, s, depth)
            } else if name == "do"@ {
                do_outcome(rules, list, s, depth)
            } else if name == "str"@ {
                str_outcome(rules, list, s, depth)
            } else if name == "delete"@ {
                delete_outcome(list, s)
            } else if math_function_named(name) is Some {
                single_argument_outcome(rules, list, s, depth)
            } else if name == "mod"@ {
                double_argument_outcome(rules, list, s, depth)
            } else if is_vector_operator(name) {
                vector_outcome(rules, list, s, depth)
            } else if s.variables.contains_key(name) {
                match s.variables[name] {
                    Value::Function { .. } => call_outcome(
                        rules,
                        s.variables[name],
                        list,
                        s,
                        depth,
                    ),
                    other => done(other, s),
                }
            } else {
                failed(EvalError::UnknownSymbol, s)
            },
            _ => done(list[0], s),
        }
    }
}

/// The results of evaluating the items of `list` from position `from` on, in
/// order, after `collected`. The first failure ends it.
pub open spec fn each_outcome(
    rules: Rules,
    list: Seq<Value>,
    from: nat,
    collected: Seq<Value>,
    s: State,
    depth: nat,
) -> Collected
    decreases depth, 1nat, list.len() - from,
{
    if from >= list.len() {
        Collected { result: Ok(collected), state: s }
    } else {
        let step = literal_outcome(rules, list[from as int], s, depth);
        match step.result {
            Ok(v) => each_outcome(rules, list, from + 1, collected.push(v), step.state, depth),
            Err(e) => Collected { result: Err(e), state: step.state },
        }
    }
}

/// The outcome of an arithmetic operator on its operands: the first operand
/// is the start, and each further one is combined with what has been
/// computed so far, from left to right.
pub open spec fn math_outcome(rules: Rules, list: Seq<Value>, s: State, depth: nat) -> Outcome
    decreases depth, 2nat, 0nat,
{
    if list.len() == 0 {
        failed(EvalError::TypeMismatch, s)
    } else {
        match list[0] {
            Value::MathOperator(op) => if list.len() < 2 {
                failed(EvalError::MissingOperand, s)
            } else {
                let first = literal_outcome(rules, list[1], s, depth);
                match first.result {
                    Ok(Value::Number(start)) => fold_outcome(
                        rules,
                        op,
                        list,
                        2,
                        start,
                        first.state,
                        depth,
                    ),
                    Ok(_) => failed(EvalError::TypeMismatch, first.state),
                    Err(e) => failed(e, first.state),
                }
            },
            _ => failed(EvalError::TypeMismatch, s),
        }
    }
}

/// The outcome of combining the operands of `list` from position `from` on
/// with `accumulated`, one after another, under the operator `op`.
pub open spec fn fold_outcome(
    rules: Rules,
    op: MathOperators,
    list: Seq<Value>,
    from: nat,
    accumulated: u64,
    s: State,
    depth: nat,
) -> Outcome
    decreases depth, 1nat, list.len() - from,
{
    if from >= list.len() {
        done(Value::Number(accumulated), s)
    } else {
        let step = literal_outcome(rules, list[from as int], s, depth);
        match step.result {
            Ok(Value::Number(operand)) => fold_outcome(
                rules,
                op,
                list,
                from + 1,
                (rules.numbers.calculate)(Calculation::Arithmetic(op, accumulated, operand)),
                step.state,
                depth,
            ),
            Ok(_) => failed(EvalError::TypeMismatch, step.state),
            Err(e) => failed(e, step.state),
        }
    }
}

/// The outcome of a list whose head is a relational operator.
pub open spec fn binary_operator_outcome(
    rules: Rules,
    list: Seq<Value>,
    s: State,
    depth: nat,
) -> Outcome
    decreases depth, 3nat, 0nat,
{
    if list.len() > 0 && list[0] is BinaryOperator {
        relation_outcome(rules, list, s, depth)
    } else {
        failed(EvalError::TypeMismatch, s)
    }
}

/// The outcome of a relational operator on exactly two operands: both are
/// evaluated, the left one first, and the result says whether the relation
/// holds between their values.
pub open spec fn relation_outcome(
    rules: Rules,
    list: Seq<Value>,
    s: State,
    depth: nat,
) -> Outcome
    decreases depth, 2nat, 0nat,
{
    if list.len() != 3 {
        failed(EvalError::ArityMismatch, s)
    } else {
        match list[0] {
            Value::BinaryOperator(op) => {
                let left = literal_outcome(rules, list[1], s, depth);
                match left.result {
                    Ok(l) => {
                        let right = literal_outcome(rules, list[2], left.state, depth);
                        match right.result {
                            Ok(r) => done(Value::Boolean(relation_holds(op, l, r)), right.state),
                            Err(e) => failed(e, right.state),
                        }
                    },
                    Err(e) => failed(e, left.state),
                }
            },
            _ => failed(EvalError::TypeMismatch, s),
        }
    }
}

/// The outcome of `if` on exactly three operands: the condition is
/// evaluated, and then the second operand if it is true, the third if it is
/// false. The other one is not evaluated.
pub open spec fn if_outcome(rules: Rules, list: Seq<Value>, s: State, depth: nat) -> Outcome
    decreases depth, 2nat, 0nat,
{
    if list.len() != 4 {
        failed(EvalError::ArityMismatch, s)
    } else {
        let condition = literal_outcome(rules, list[1], s, depth);
        match condition.result {
            Ok(Value::Boolean(holds)) => literal_outcome(
                rules,
                if holds {
                    list[2]
                } else {
                    list[3]
                },
                condition.state,
                depth,
            ),
            Ok(_) => failed(EvalError::TypeMismatch, condition.state),
            Err(e) => failed(e, condition.state),
        }
    }
}

/// The outcome of `define`: the value of the second operand is bound to the
/// name that the first operand gives. Operands after the second are
/// ignored.
pub open spec fn define_outcome(rules: Rules, list: Seq<Value>, s: State, depth: nat) -> Outcome
    decreases depth, 2nat, 0nat,
{
    if list.len() < 2 {
        failed(EvalError::ArityMismatch, s)
    } else {
        match list[1] {
            Value::Symbol(name) => if list.len() < 3 {
                failed(EvalError::ArityMismatch, s)
            } else {
                let value = literal_outcome(rules, list[2], s, depth);
                match value.result {
                    Ok(v) => done(
                        Value::Void,
                        State { variables: value.state.variables.insert(name, v), ..value.state },
                    ),
                    Err(e) => failed(e, value.state),
                }
            },
            _ => failed(EvalError::TypeMismatch, s),
        }
    }
}

/// The outcome of `do`: the operands are evaluated in order and their values
/// dropped.
pub open spec fn do_outcome(rules: Rules, list: Seq<Value>, s: State, depth: nat) -> Outcome
    decreases depth, 2nat, 0nat,
{
    let each = each_outcome(rules, list, 1, Seq::empty(), s, depth);
    match each.result {
        Ok(_) => done(Value::Void, each.state),
        Err(e) => failed(e, each.state),
    }
}

/// The outcome of `str`: the displayed texts of the values of the operands,
/// one after another, as a string; `Void` without operands.
pub open spec fn str_outcome(rules: Rules, list: Seq<Value>, s: State, depth: nat) -> Outcome
    decreases depth, 2nat, 0nat,
{
    let each = each_outcome(rules, list, 1, Seq::empty(), s, depth);
    match each.result {
        Ok(values) => if values.len() == 0 {
            done(Value::Void, each.state)
        } else {
            done(Value::String(displayed_all(rules.numbers, values).flatten()), each.state)
        },
        Err(e) => failed(e, each.state),
    }
}

/// The outcome of `print`: what it writes for the values of its operands is
/// added to the output, one text for each operand. Nothing is written where
/// an operand fails.
pub open spec fn print_outcome(rules: Rules, list: Seq<Value>, s: State, depth: nat) -> Outcome
    decreases depth, 2nat, 0nat,
{
    let each = each_outcome(rules, list, 1, Seq::empty(), s, depth);
    match each.result {
        Ok(values) => done(
            Value::Void,
            State { output: each.state.output + printed(rules.numbers, values), ..each.state },
        ),
        Err(e) => failed(e, each.state),
    }
}

/// The items of a form after its head.
pub open spec fn operands(list: Seq<Value>) -> Seq<Value> {
    if list.len() == 0 {
        Seq::empty()
    } else {
        list.skip(1)
    }
}

/// The outcome of `delete`: the operands, as they are written, are added to
/// the deleted values. They are not evaluated.
pub open spec fn delete_outcome(list: Seq<Value>, s: State) -> Outcome {
    done(Value::Void, State { deleted: s.deleted + operands(list), ..s })
}

/// The name and the function that `fn` defines, or why it defines none. The
/// name is the first operand, the parameters are the symbols of the second,
/// a vector, and the body is the third. Operands after the third are
/// ignored.
pub open spec fn defined_function(list: Seq<Value>) -> Result<(Seq<char>, Value), EvalError> {
    if list.len() < 2 {
        Err(EvalError::ArityMismatch)
    } else {
        match list[1] {
            Value::Symbol(name) => if list.len() < 3 {
                Err(EvalError::ArityMismatch)
            } else {
                match list[2] {
                    Value::Vector(params) => match parameter_names(params) {
                        Some(names) => if list.len() < 4 {
                            Err(EvalError::ArityMismatch)
                        } else {
                            Ok(
                                (
                                    name,
                                    Value::Function {
                                        name: name,
                                        args: names,
                                        body: Box::new(list[3]),
                                    },
                                ),
                            )
                        },
                        None => Err(EvalError::TypeMismatch),
                    },
                    _ => Err(EvalError::TypeMismatch),
                }
            },
            _ => Err(EvalError::TypeMismatch),
        }
    }
}

/// The outcome of `fn`: the function that it defines is bound to its name.
pub open spec fn function_definition_outcome(list: Seq<Value>, s: State) -> Outcome {
    match defined_function(list) {
        Ok((name, function)) => done(
            Value::Void,
            State { variables: s.variables.insert(name, function), ..s },
        ),
        Err(e) => failed(e, s),
    }
}

/// The outcome of calling `function` with the operands of `list` as
/// arguments. The arguments are evaluated in the caller's environment. The
/// body is evaluated in a copy of that environment in which each parameter
/// is bound to its argument. The caller's environment is as it was after the
/// arguments; the deleted values and the output are as the body left them.
pub open spec fn call_outcome(
    rules: Rules,
    function: Value,
    list: Seq<Value>,
    s: State,
    depth: nat,
) -> Outcome
    decreases depth, 2nat, 0nat,
{
    let arguments = each_outcome(rules, list, 1, Seq::empty(), s, depth);
    match arguments.result {
        Ok(values) => match function {
            Value::Function { args, body, .. } => if values.len() != args.len() {
                failed(EvalError::ArityMismatch, arguments.state)
            } else {
                let inner = literal_outcome(
                    rules,
                    *body,
                    State {
                        variables: bound(arguments.state.variables, args, values, 0),
                        ..arguments.state
                    },
                    depth,
                );
                Outcome {
                    result: inner.result,
                    state: State { variables: arguments.state.variables, ..inner.state },
                }
            },
            _ => failed(EvalError::TypeMismatch, arguments.state),
        },
        Err(e) => failed(e, arguments.state),
    }
}

/// The outcome of a mathematical operator on exactly one operand, which has
/// to be a number.
pub open spec fn single_argument_outcome(
    rules: Rules,
    list: Seq<Value>,
    s: State,
    depth: nat,
) -> Outcome
    decreases depth, 2nat, 0nat,
{
    if list.len() == 0 {
        failed(EvalError::ArityMismatch, s)
    } else {
        match list[0] {
            Value::Symbol(name) => if list.len() != 2 {
                failed(EvalError::ArityMismatch, s)
            } else {
                let operand = literal_outcome(rules, list[1], s, depth);
                match operand.result {
                    Ok(Value::Number(bits)) => match math_function_named(name) {
                        Some(function) => done(
                            Value::Number(
                                (rules.numbers.calculate)(Calculation::Function(function, bits)),
                            ),
                            operand.state,
                        ),
                        None => failed(EvalError::UnknownOperator, operand.state),
                    },
                    Ok(_) => failed(EvalError::TypeMismatch, operand.state),
                    Err(e) => failed(e, operand.state),
                }
            },
            _ => failed(EvalError::TypeMismatch, s),
        }
    }
}

/// The outcome of a mathematical operator on exactly two operands, which
/// have to be numbers. `mod` is the only one.
pub open spec fn double_argument_outcome(
    rules: Rules,
    list: Seq<Value>,
    s: State,
    depth: nat,
) -> Outcome
    decreases depth, 2nat, 0nat,
{
    if list.len() == 0 {
        failed(EvalError::ArityMismatch, s)
    } else {
        match list[0] {
            Value::Symbol(name) => if list.len() != 3 {
                failed(EvalError::ArityMismatch, s)
            } else {
                let left = literal_outcome(rules, list[1], s, depth);
                match left.result {
                    Ok(Value::Number(l)) => {
                        let right = literal_outcome(rules, list[2], left.state, depth);
                        match right.result {
                            Ok(Value::Number(r)) => if name == "mod"@ {
                                done(
                                    Value::Number(
                                        (rules.numbers.calculate)(Calculation::Remainder(l, r)),
                                    ),
                                    right.state,
                                )
                            } else {
                                failed(EvalError::UnknownOperator, right.state)
                            },
                            Ok(_) => failed(EvalError::TypeMismatch, right.state),
                            Err(e) => failed(e, right.state),
                        }
                    },
                    Ok(_) => failed(EvalError::TypeMismatch, left.state),
                    Err(e) => failed(e, left.state),
                }
            },
            _ => failed(EvalError::TypeMismatch, s),
        }
    }
}

/// The outcome of a vector operator, by its name.
pub open spec fn vector_outcome(rules: Rules, list: Seq<Value>, s: State, depth: nat) -> Outcome
    decreases depth, 3nat, 0nat,
{
    if list.len() == 0 {
        failed(EvalError::ArityMismatch, s)
    } else {
        match list[0] {
            Value::Symbol(name) => if name == "nth"@ {
                nth_outcome(rules, list, s, depth)
            } else if name == "join"@ || name == "push"@ {
                join_outcome(rules, list, s, depth)
            } else if name == "range"@ {
                range_outcome(rules, list, s, depth)
            } else if name == "map"@ {
                map_outcome(rules, list, s, depth)
            } else if name == "filter"@ {
                filter_outcome(rules, list, s, depth)
            } else {
                failed(EvalError::UnknownOperator, s)
            },
            _ => failed(EvalError::TypeMismatch, s),
        }
    }
}

/// The outcome of `nth`: the vector is evaluated, then the index; the result
/// is the item at the index, or `Void` where the vector has none there. An
/// index that is a NaN or rounds to less than zero is outside every vector.
pub open spec fn nth_outcome(rules: Rules, list: Seq<Value>, s: State, depth: nat) -> Outcome
    decreases depth, 2nat, 0nat,
{
    if list.len() != 3 {
        failed(EvalError::ArityMismatch, s)
    } else {
        let vector = literal_outcome(rules, list[1], s, depth);
        match vector.result {
            Ok(Value::Vector(items)) => {
                let index = literal_outcome(rules, list[2], vector.state, depth);
                match index.result {
                    Ok(Value::Number(bits)) => done(
                        item_at(rules.numbers, items, bits),
                        index.state,
                    ),
                    Ok(_) => failed(EvalError::TypeMismatch, index.state),
                    Err(e) => failed(e, index.state),
                }
            },
            Ok(_) => failed(EvalError::TypeMismatch, vector.state),
            Err(e) => failed(e, vector.state),
        }
    }
}

/// The outcome of `join` and `push`: the items of the vector that the first
/// operand gives, followed by the values of the other operands.
pub open spec fn join_outcome(rules: Rules, list: Seq<Value>, s: State, depth: nat) -> Outcome
    decreases depth, 2nat, 0nat,
{
    if list.len() < 2 {
        failed(EvalError::ArityMismatch, s)
    } else {
        let vector = literal_outcome(rules, list[1], s, depth);
        match vector.result {
            Ok(Value::Vector(items)) => {
                let each = each_outcome(rules, list, 2, Seq::empty(), vector.state, depth);
                match each.result {
                    Ok(values) => done(Value::Vector(items + values), each.state),
                    Err(e) => failed(e, each.state),
                }
            },
            Ok(_) => failed(EvalError::TypeMismatch, vector.state),
            Err(e) => failed(e, vector.state),
        }
    }
}

/// The outcome of `range`: the numbers of the integers from the integer part
/// of the first operand to that of the second. Operands after the second
/// are ignored.
pub open spec fn range_outcome(rules: Rules, list: Seq<Value>, s: State, depth: nat) -> Outcome
    decreases depth, 2nat, 0nat,
{
    if list.len() < 2 {
        failed(EvalError::ArityMismatch, s)
    } else {
        let start = literal_outcome(rules, list[1], s, depth);
        match start.result {
            Ok(Value::Number(from)) => if list.len() < 3 {
                failed(EvalError::ArityMismatch, start.state)
            } else {
                let end = literal_outcome(rules, list[2], start.state, depth);
                match end.result {
                    Ok(Value::Number(to)) => done(
                        Value::Vector(
                            integers(
                                rules.numbers,
                                (rules.numbers.truncate)(from),
                                (rules.numbers.truncate)(to),
                            ),
                        ),
                        end.state,
                    ),
                    Ok(_) => failed(EvalError::TypeMismatch, end.state),
                    Err(e) => failed(e, end.state),
                }
            },
            Ok(_) => failed(EvalError::TypeMismatch, start.state),
            Err(e) => failed(e, start.state),
        }
    }
}

/// The name of the function that `map` and `filter` apply, or why the first
/// operand gives none: it has to be a symbol that is bound to a function.
pub open spec fn applied_function(list: Seq<Value>, variables: Map<Seq<char>, Value>) -> Result<
    Seq<char>,
    EvalError,
>
    recommends
        list.len() >= 2,
{
    match list[1] {
        Value::Symbol(name) => if !variables.contains_key(name) {
            Err(EvalError::UnknownSymbol)
        } else if variables[name] is Function {
            Ok(name)
        } else {
            Err(EvalError::TypeMismatch)
        },
        _ => Err(EvalError::TypeMismatch),
    }
}

/// The outcome of `map`: the function is called on each item of the vector,
/// and the results other than `Void` are collected.
pub open spec fn map_outcome(rules: Rules, list: Seq<Value>, s: State, depth: nat) -> Outcome
    decreases depth, 2nat, 0nat,
{
    if list.len() != 3 {
        failed(EvalError::ArityMismatch, s)
    } else {
        match applied_function(list, s.variables) {
            Ok(name) => {
                let vector = literal_outcome(rules, list[2], s, depth);
                match vector.result {
                    Ok(Value::Vector(items)) => map_from_outcome(
                        rules,
                        name,
                        items,
                        0,
                        Seq::empty(),
                        vector.state,
                        depth,
                    ),
                    Ok(_) => failed(EvalError::TypeMismatch, vector.state),
                    Err(e) => failed(e, vector.state),
                }
            },
            Err(e) => failed(e, s),
        }
    }
}

/// The outcome of mapping the items from position `from` on, after
/// `collected`. The first failing call ends it.
pub open spec fn map_from_outcome(
    rules: Rules,
    name: Seq<char>,
    items: Seq<Value>,
    from: nat,
    collected: Seq<Value>,
    s: State,
    depth: nat,
) -> Outcome
    decreases depth, 1nat, items.len() - from,
{
    if from >= items.len() {
        done(Value::Vector(collected), s)
    } else {
        let call = literal_outcome(rules, call_form(name, items[from as int]), s, depth);
        match call.result {
            Ok(Value::Void) => map_from_outcome(
                rules,
                name,
                items,
                from + 1,
                collected,
                call.state,
                depth,
            ),
            Ok(v) => map_from_outcome(
                rules,
                name,
                items,
                from + 1,
                collected.push(v),
                call.state,
                depth,
            ),
            Err(e) => failed(e, call.state),
        }
    }
}

/// The outcome of `filter`: the function is called on each item of the
/// vector, and the items for which it gives `true` are kept. A call that
/// fails does not make `filter` fail.
pub open spec fn filter_outcome(rules: Rules, list: Seq<Value>, s: State, depth: nat) -> Outcome
    decreases depth, 2nat, 0nat,
{
    if list.len() != 3 {
        failed(EvalError::ArityMismatch, s)
    } else {
        match applied_function(list, s.variables) {
            Ok(name) => {
                let vector = literal_outcome(rules, list[2], s, depth);
                match vector.result {
                    Ok(Value::Vector(items)) => filter_from_outcome(
                        rules,
                        name,
                        items,
                        0,
                        Seq::empty(),
                        vector.state,
                        depth,
                    ),
                    Ok(_) => failed(EvalError::TypeMismatch, vector.state),
                    Err(e) => failed(e, vector.state),
                }
            },
            Err(e) => failed(e, s),
        }
    }
}

/// The outcome of filtering the items from position `from` on, after `kept`.
/// An item whose call fails, or gives anything but `true`, is left out.
/// Under the strict rules a call that exceeds the depth ends the filtering.
pub open spec fn filter_from_outcome(
    rules: Rules,
    name: Seq<char>,
    items: Seq<Value>,
    from: nat,
    kept: Seq<Value>,
    s: State,
    depth: nat,
) -> Outcome
    decreases depth, 1nat, items.len() - from,
{
    if from >= items.len() {
        done(Value::Vector(kept), s)
    } else {
        let call = literal_outcome(rules, call_form(name, items[from as int]), s, depth);
        if rules.cut_ends_filter && call.result == Err::<Value, EvalError>(
            EvalError::DepthExceeded,
        ) {
            failed(EvalError::DepthExceeded, call.state)
        } else {
            filter_from_outcome(
                rules,
                name,
                items,
                from + 1,
                if call.result == Ok::<Value, EvalError>(Value::Boolean(true)) {
                    kept.push(items[from as int])
                } else {
                    kept
                },
                call.state,
                depth,
            )
        }
    }
}

/// The results of evaluating the expressions of a program in order, in an
/// empty environment with nothing deleted, after `output` was printed.
pub open spec fn program_outcome(
    rules: Rules,
    program: Seq<Value>,
    output: Seq<Seq<char>>,
    depth: nat,
) -> Collected {
    each_outcome(
        rules,
        program,
        0,
        Seq::empty(),
        State { variables: Map::empty(), deleted: Seq::empty(), output: output },
        depth,
    )
}

} // verus!
