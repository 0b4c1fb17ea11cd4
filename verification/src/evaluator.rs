//! The evaluator: the dispatch on a value and on the head of a list, and the
//! core forms.

use vstd::prelude::*;
use vstd::string::StringExecFns;
use crate::comparison::{Order, contains_value, literals_equal, order_literals, same_text, value_eq};
use crate::environment::Variables;
use crate::error::EvalError;
use crate::functions::{define_function, eval_function};
use crate::host::{Calculation, Host, MathFunction};
use crate::literals::{
    Literal, Operator, Value, lemma_list_view, lemma_models_push, lemma_texts_push, models, texts,
};
use crate::math_functions::{eval_operator_with_double_argument, eval_operator_with_single_arg};
use crate::semantics::{
    Collected, Outcome, State, binary_operator_outcome, define_outcome, displayed, displayed_all,
    do_outcome, each_outcome, fold_outcome, if_outcome, is_vector_operator, lenient, list_outcome,
    literal_outcome, math_function_named, math_outcome, operands, print_outcome, printed,
    program_outcome, relation_holds, relation_outcome, str_outcome,
};
use crate::text::unescape;
use crate::vector_manipulation::eval_vector_operation;

verus! {

/// A depth that lets programs nest as deep as they commonly do and keeps
/// the evaluator's own recursion within a stack of two megabytes, a quarter
/// of which it takes at this depth.
pub const DEFAULT_DEPTH: usize = 1024;

/// The state that an environment, the deleted values and the output make up.
pub open spec fn state_of(
    variables: Map<Seq<char>, Value>,
    deleted: Seq<Literal>,
    output: Seq<String>,
) -> State {
    State { variables: variables, deleted: models(deleted), output: texts(output) }
}

/// The view of a result.
pub open spec fn result_of(result: Result<Literal, EvalError>) -> Result<Value, EvalError> {
    match result {
        Ok(literal) => Ok(literal@),
        Err(e) => Err(e),
    }
}

/// The view of several results.
pub open spec fn results_of(result: Result<Vec<Literal>, EvalError>) -> Result<
    Seq<Value>,
    EvalError,
> {
    match result {
        Ok(literals) => Ok(models(literals@)),
        Err(e) => Err(e),
    }
}

/// Whether a literal equals one of the deleted ones.
pub fn is_deleted(deleted: &Vec<Literal>, literal: &Literal) -> (found: bool)
    ensures
        found == contains_value(models(deleted@), literal@),
{
    let mut i: usize = 0;
    while i < deleted.len()
        invariant
            i <= deleted.len(),
            forall|j: int| 0 <= j < i ==> !value_eq(#[trigger] models(deleted@)[j], literal@),
        decreases deleted.len() - i,
    {
        if literals_equal(&deleted[i], literal) {
            assert(value_eq(models(deleted@)[i as int], literal@));
            return true;
        }
        i += 1;
    }
    false
}

/// The function that a name of the one-operand mathematical operators
/// stands for.
pub fn math_function_of(name: &str) -> (function: Option<MathFunction>)
    ensures
        function == math_function_named(name@),
{
    if same_text(name, "sqrt") {
        Some(MathFunction::Sqrt)
    } else if same_text(name, "sin") {
        Some(MathFunction::Sin)
    } else if same_text(name, "cos") {
        Some(MathFunction::Cos)
    } else if same_text(name, "tan") {
        Some(MathFunction::Tan)
    } else if same_text(name, "abs") {
        Some(MathFunction::Abs)
    } else if same_text(name, "log10") {
        Some(MathFunction::Log10)
    } else if same_text(name, "floor") {
        Some(MathFunction::Floor)
    } else if same_text(name, "ceil") {
        Some(MathFunction::Ceil)
    } else if same_text(name, "round") {
        Some(MathFunction::Round)
    } else {
        None
    }
}

/// Whether a name is that of a vector operator.
pub fn names_vector_operator(name: &str) -> (found: bool)
    ensures
        found == is_vector_operator(name@),
{
    same_text(name, "nth") || same_text(name, "join") || same_text(name, "push") || same_text(
        name,
        "range",
    ) || same_text(name, "map") || same_text(name, "filter")
}

/// Evaluates the expressions of a program in order, in a fresh environment
/// with nothing deleted, and gives their values. The first failure ends the
/// evaluation. What the program writes is added to `output`.
pub fn eval_from_literals<C: Fn(Calculation) -> u64, T: Fn(u64) -> i64, R: Fn(u64) -> String>(
    literals: &Vec<Literal>,
    output: &mut Vec<String>,
    depth: usize,
    host: &Host<C, T, R>,
) -> (result: Result<Vec<Literal>, EvalError>)
    requires
        host.well_formed(),
    ensures
        results_of(result) == program_outcome(
            lenient(host.numbers()),
            models(literals@),
            texts(old(output)@),
            depth as nat,
        ).result,
        texts(final(output)@) == program_outcome(
            lenient(host.numbers()),
            models(literals@),
            texts(old(output)@),
            depth as nat,
        ).state.output,
{
    let mut variables = Variables::new();
    let mut deleted: Vec<Literal> = Vec::new();
    assert(models(deleted@) =~= Seq::<Value>::empty());
    eval_each(literals, 0, &mut variables, &mut deleted, output, depth, host)
}

/// Evaluates the items of `list` from position `from` on, in order, and
/// gives their values. The first failure ends it.
pub fn eval_each<C: Fn(Calculation) -> u64, T: Fn(u64) -> i64, R: Fn(u64) -> String>(
    list: &Vec<Literal>,
    from: usize,
    variables: &mut Variables,
    deleted: &mut Vec<Literal>,
    output: &mut Vec<String>,
    depth: usize,
    host: &Host<C, T, R>,
) -> (result: Result<Vec<Literal>, EvalError>)
    requires
        host.well_formed(),
    ensures
        (Collected {
            result: results_of(result),
            state: state_of(final(variables)@, final(deleted)@, final(output)@),
        }) == each_outcome(
            lenient(host.numbers()),
            models(list@),
            from as nat,
            Seq::empty(),
            state_of(old(variables)@, old(deleted)@, old(output)@),
            depth as nat,
        ),
    decreases depth, 1nat,
{
    let ghost numbers = host.numbers();
    let ghost start = state_of(variables@, deleted@, output@);
    let mut values: Vec<Literal> = Vec::new();
    let mut i: usize = from;
    assert(models(values@) =~= Seq::<Value>::empty());
    while i < list.len()
        invariant
            host.well_formed(),
            numbers == host.numbers(),
            start == state_of(old(variables)@, old(deleted)@, old(output)@),
            from <= i,
            each_outcome(
                lenient(numbers),
                models(list@),
                i as nat,
                models(values@),
                state_of(variables@, deleted@, output@),
                depth as nat,
            ) == each_outcome(
                lenient(numbers),
                models(list@),
                from as nat,
                Seq::empty(),
                start,
                depth as nat,
            ),
        decreases list.len() - i,
    {
        match eval_literal(&list[i], variables, deleted, output, depth, host) {
            Ok(value) => {
                proof {
                    lemma_models_push(values@, value);
                }
                values.push(value);
            },
            Err(e) => {
                return Err(e);
            },
        }
        i += 1;
    }
    Ok(values)
}

/// Evaluates a literal. See [`literal_outcome`].
pub fn eval_literal<C: Fn(Calculation) -> u64, T: Fn(u64) -> i64, R: Fn(u64) -> String>(
    literal: &Literal,
    variables: &mut Variables,
    deleted: &mut Vec<Literal>,
    output: &mut Vec<String>,
    depth: usize,
    host: &Host<C, T, R>,
) -> (result: Result<Literal, EvalError>)
    requires
        host.well_formed(),
    ensures
        (Outcome {
            result: result_of(result),
            state: state_of(final(variables)@, final(deleted)@, final(output)@),
        }) == literal_outcome(
            lenient(host.numbers()),
            literal@,
            state_of(old(variables)@, old(deleted)@, old(output)@),
            depth as nat,
        ),
    decreases depth, 0nat,
{
    if is_deleted(deleted, literal) {
        return Err(EvalError::DeletedLiteralUse);
    }
    match literal {
        Literal::Void => Ok(Literal::Void),
        Literal::Number(bits) => Ok(Literal::Number(*bits)),
        Literal::String(_) => Ok(literal.clone()),
        Literal::Vector(_) => Ok(literal.clone()),
        Literal::Boolean(b) => Ok(Literal::Boolean(*b)),
        Literal::List(list) => {
            if depth == 0 {
                return Err(EvalError::DepthExceeded);
            }
            proof {
                lemma_list_view(*list);
            }
            eval_list(list, variables, deleted, output, depth - 1, host)
        },
        Literal::Symbol(name) => match variables.get(name) {
            Some(value) => Ok(value.clone()),
            None => Err(EvalError::UnknownSymbol),
        },
        _ => Err(EvalError::TypeMismatch),
    }
}

/// Evaluates a list as a form. See [`list_outcome`].
pub fn eval_list<C: Fn(Calculation) -> u64, T: Fn(u64) -> i64, R: Fn(u64) -> String>(
    list: &Vec<Literal>,
    variables: &mut Variables,
    deleted: &mut Vec<Literal>,
    output: &mut Vec<String>,
    depth: usize,
    host: &Host<C, T, R>,
) -> (result: Result<Literal, EvalError>)
    requires
        host.well_formed(),
    ensures
        (Outcome {
            result: result_of(result),
            state: state_of(final(variables)@, final(deleted)@, final(output)@),
        }) == list_outcome(
            lenient(host.numbers()),
            models(list@),
            state_of(old(variables)@, old(deleted)@, old(output)@),
            depth as nat,
        ),
    decreases depth, 4nat,
{
    if list.len() == 0 {
        return Ok(Literal::Void);
    }
    let head = &list[0];
    assert(models(list@)[0] == head@);
    match head {
        Literal::List(inner) => {
            if depth == 0 {
                Err(EvalError::DepthExceeded)
            } else {
                proof {
                    lemma_list_view(*inner);
                }
                eval_list(inner, variables, deleted, output, depth - 1, host)
            }
        },
        Literal::Void => Ok(Literal::Void),
        Literal::MathOperator(_) => eval_math_operator(
            list,
            variables,
            deleted,
            output,
            depth,
            host,
        ),
        Literal::BinaryOperator(_) => eval_binary_operator(
            list,
            variables,
            deleted,
            output,
            depth,
            host,
        ),
        Literal::If => eval_if(list, variables, deleted, output, depth, host),
        Literal::Vector(_) => eval_literal(head, variables, deleted, output, depth, host),
        Literal::Symbol(name) => {
            let text = name.as_str();
            if same_text(text, "fn") {
                define_function(list, variables)
            } else if same_text(text, "define") {
                define_variable(list, variables, deleted, output, depth, host)
            } else if same_text(text, "print") {
                eval_print(list, variables, deleted, output, depth, host)
            } else if same_text(text, "do") {
                eval_do(list, variables, deleted, output, depth, host)
            } else if same_text(text, "str") {
                eval_str(list, variables, deleted, output, depth, host)
            } else if same_text(text, "delete") {
                eval_delete(list, deleted)
            } else if math_function_of(text).is_some() {
                eval_operator_with_single_arg(list, variables, deleted, output, depth, host)
            } else if same_text(text, "mod") {
                eval_operator_with_double_argument(list, variables, deleted, output, depth, host)
            } else if names_vector_operator(text) {
                eval_vector_operation(list, variables, deleted, output, depth, host)
            } else {
                match variables.get(name) {
                    Some(value) => match value {
                        Literal::Function { .. } => {
                            let function = value.clone();
                            eval_function(&function, list, variables, deleted, output, depth, host)
                        },
                        _ => Ok(value.clone()),
                    },
                    None => Err(EvalError::UnknownSymbol),
                }
            }
        },
        _ => Ok(head.clone()),
    }
}

/// Evaluates an arithmetic operator on its operands. See [`math_outcome`].
pub fn eval_math_operator<C: Fn(Calculation) -> u64, T: Fn(u64) -> i64, R: Fn(u64) -> String>(
    list: &Vec<Literal>,
    variables: &mut Variables,
    deleted: &mut Vec<Literal>,
    output: &mut Vec<String>,
    depth: usize,
    host: &Host<C, T, R>,
) -> (result: Result<Literal, EvalError>)
    requires
        host.well_formed(),
    ensures
        (Outcome {
            result: result_of(result),
            state: state_of(final(variables)@, final(deleted)@, final(output)@),
        }) == math_outcome(
            lenient(host.numbers()),
            models(list@),
            state_of(old(variables)@, old(deleted)@, old(output)@),
            depth as nat,
        ),
    decreases depth, 2nat,
{
    let ghost numbers = host.numbers();
    let ghost start = state_of(variables@, deleted@, output@);
    if list.len() == 0 {
        return Err(EvalError::TypeMismatch);
    }
    assert(models(list@)[0] == list@[0]@);
    let op = match &list[0] {
        Literal::MathOperator(op) => *op,
        _ => {
            return Err(EvalError::TypeMismatch);
        },
    };
    if list.len() < 2 {
        return Err(EvalError::MissingOperand);
    }
    let mut accumulated = match eval_literal(&list[1], variables, deleted, output, depth, host) {
        Ok(Literal::Number(bits)) => bits,
        Ok(_) => {
            return Err(EvalError::TypeMismatch);
        },
        Err(e) => {
            return Err(e);
        },
    };
    let mut i: usize = 2;
    while i < list.len()
        invariant
            host.well_formed(),
            numbers == host.numbers(),
            start == state_of(old(variables)@, old(deleted)@, old(output)@),
            2 <= i,
            fold_outcome(
                lenient(numbers),
                op,
                models(list@),
                i as nat,
                accumulated,
                state_of(variables@, deleted@, output@),
                depth as nat,
            ) == math_outcome(lenient(numbers), models(list@), start, depth as nat),
        decreases list.len() - i,
    {
        match eval_literal(&list[i], variables, deleted, output, depth, host) {
            Ok(Literal::Number(operand)) => {
                accumulated = host.calculate(Calculation::Arithmetic(op, accumulated, operand));
            },
            Ok(_) => {
                return Err(EvalError::TypeMismatch);
            },
            Err(e) => {
                return Err(e);
            },
        }
        i += 1;
    }
    Ok(Literal::Number(accumulated))
}

/// Evaluates a list whose head is a relational operator. See
/// [`binary_operator_outcome`].
pub fn eval_binary_operator<C: Fn(Calculation) -> u64, T: Fn(u64) -> i64, R: Fn(u64) -> String>(
    list: &Vec<Literal>,
    variables: &mut Variables,
    deleted: &mut Vec<Literal>,
    output: &mut Vec<String>,
    depth: usize,
    host: &Host<C, T, R>,
) -> (result: Result<Literal, EvalError>)
    requires
        host.well_formed(),
    ensures
        (Outcome {
            result: result_of(result),
            state: state_of(final(variables)@, final(deleted)@, final(output)@),
        }) == binary_operator_outcome(
            lenient(host.numbers()),
            models(list@),
            state_of(old(variables)@, old(deleted)@, old(output)@),
            depth as nat,
        ),
    decreases depth, 3nat,
{
    if list.len() == 0 {
        return Err(EvalError::TypeMismatch);
    }
    assert(models(list@)[0] == list@[0]@);
    match &list[0] {
        Literal::BinaryOperator(_) => eval_relation_operator(
            list,
            variables,
            deleted,
            output,
            depth,
            host,
        ),
        _ => Err(EvalError::TypeMismatch),
    }
}

/// Whether a relation holds between two literals.
pub fn holds(op: Operator, left: &Literal, right: &Literal) -> (result: bool)
    ensures
        result == relation_holds(op, left@, right@),
{
    match op {
        Operator::Equal => literals_equal(left, right),
        Operator::NotEqual => !literals_equal(left, right),
        Operator::LessThan => match order_literals(left, right) {
            Some(Order::Less) => true,
            _ => false,
        },
        Operator::BiggerThan => match order_literals(left, right) {
            Some(Order::Greater) => true,
            _ => false,
        },
        Operator::LessOrEqualThan => match order_literals(left, right) {
            Some(Order::Less) => true,
            Some(Order::Equal) => true,
            _ => false,
        },
        Operator::BiggerOrEqualThan => match order_literals(left, right) {
            Some(Order::Greater) => true,
            Some(Order::Equal) => true,
            _ => false,
        },
    }
}

/// Evaluates a relational operator on two operands. See
/// [`relation_outcome`].
pub fn eval_relation_operator<C: Fn(Calculation) -> u64, T: Fn(u64) -> i64, R: Fn(u64) -> String>(
    list: &Vec<Literal>,
    variables: &mut Variables,
    deleted: &mut Vec<Literal>,
    output: &mut Vec<String>,
    depth: usize,
    host: &Host<C, T, R>,
) -> (result: Result<Literal, EvalError>)
    requires
        host.well_formed(),
    ensures
        (Outcome {
            result: result_of(result),
            state: state_of(final(variables)@, final(deleted)@, final(output)@),
        }) == relation_outcome(
            lenient(host.numbers()),
            models(list@),
            state_of(old(variables)@, old(deleted)@, old(output)@),
            depth as nat,
        ),
    decreases depth, 2nat,
{
    if list.len() != 3 {
        return Err(EvalError::ArityMismatch);
    }
    assert(models(list@)[0] == list@[0]@);
    let op = match &list[0] {
        Literal::BinaryOperator(op) => *op,
        _ => {
            return Err(EvalError::TypeMismatch);
        },
    };
    let left = match eval_literal(&list[1], variables, deleted, output, depth, host) {
        Ok(left) => left,
        Err(e) => {
            return Err(e);
        },
    };
    let right = match eval_literal(&list[2], variables, deleted, output, depth, host) {
        Ok(right) => right,
        Err(e) => {
            return Err(e);
        },
    };
    Ok(Literal::Boolean(holds(op, &left, &right)))
}

/// Evaluates `if`. See [`if_outcome`].
pub fn eval_if<C: Fn(Calculation) -> u64, T: Fn(u64) -> i64, R: Fn(u64) -> String>(
    list: &Vec<Literal>,
    variables: &mut Variables,
    deleted: &mut Vec<Literal>,
    output: &mut Vec<String>,
    depth: usize,
    host: &Host<C, T, R>,
) -> (result: Result<Literal, EvalError>)
    requires
        host.well_formed(),
    ensures
        (Outcome {
            result: result_of(result),
            state: state_of(final(variables)@, final(deleted)@, final(output)@),
        }) == if_outcome(
            lenient(host.numbers()),
            models(list@),
            state_of(old(variables)@, old(deleted)@, old(output)@),
            depth as nat,
        ),
    decreases depth, 2nat,
{
    if list.len() != 4 {
        return Err(EvalError::ArityMismatch);
    }
    match eval_literal(&list[1], variables, deleted, output, depth, host) {
        Ok(Literal::Boolean(condition)) => {
            if condition {
                eval_literal(&list[2], variables, deleted, output, depth, host)
            } else {
                eval_literal(&list[3], variables, deleted, output, depth, host)
            }
        },
        Ok(_) => Err(EvalError::TypeMismatch),
        Err(e) => Err(e),
    }
}

/// Evaluates `define`. See [`define_outcome`].
pub fn define_variable<C: Fn(Calculation) -> u64, T: Fn(u64) -> i64, R: Fn(u64) -> String>(
    list: &Vec<Literal>,
    variables: &mut Variables,
    deleted: &mut Vec<Literal>,
    output: &mut Vec<String>,
    depth: usize,
    host: &Host<C, T, R>,
) -> (result: Result<Literal, EvalError>)
    requires
        host.well_formed(),
    ensures
        (Outcome {
            result: result_of(result),
            state: state_of(final(variables)@, final(deleted)@, final(output)@),
        }) == define_outcome(
            lenient(host.numbers()),
            models(list@),
            state_of(old(variables)@, old(deleted)@, old(output)@),
            depth as nat,
        ),
    decreases depth, 2nat,
{
    if list.len() < 2 {
        return Err(EvalError::ArityMismatch);
    }
    assert(models(list@)[1] == list@[1]@);
    let name = match &list[1] {
        Literal::Symbol(name) => name,
        _ => {
            return Err(EvalError::TypeMismatch);
        },
    };
    if list.len() < 3 {
        return Err(EvalError::ArityMismatch);
    }
    match eval_literal(&list[2], variables, deleted, output, depth, host) {
        Ok(value) => {
            variables.insert(name.clone(), value);
            Ok(Literal::Void)
        },
        Err(e) => Err(e),
    }
}

/// The text that `str` and `print` give a literal.
pub fn display<C: Fn(Calculation) -> u64, T: Fn(u64) -> i64, R: Fn(u64) -> String>(
    literal: &Literal,
    host: &Host<C, T, R>,
) -> (text: String)
    requires
        host.well_formed(),
    ensures
        text@ == displayed(host.numbers(), literal@),
{
    match literal {
        Literal::String(text) => unescape(text.as_str()),
        _ => literal.render(host),
    }
}

/// Evaluates `print`. See [`print_outcome`].
pub fn eval_print<C: Fn(Calculation) -> u64, T: Fn(u64) -> i64, R: Fn(u64) -> String>(
    list: &Vec<Literal>,
    variables: &mut Variables,
    deleted: &mut Vec<Literal>,
    output: &mut Vec<String>,
    depth: usize,
    host: &Host<C, T, R>,
) -> (result: Result<Literal, EvalError>)
    requires
        host.well_formed(),
    ensures
        (Outcome {
            result: result_of(result),
            state: state_of(final(variables)@, final(deleted)@, final(output)@),
        }) == print_outcome(
            lenient(host.numbers()),
            models(list@),
            state_of(old(variables)@, old(deleted)@, old(output)@),
            depth as nat,
        ),
    decreases depth, 2nat,
{
    let values = match eval_each(list, 1, variables, deleted, output, depth, host) {
        Ok(values) => values,
        Err(e) => {
            return Err(e);
        },
    };
    let ghost before = texts(output@);
    let ghost all = printed(host.numbers(), models(values@));
    let mut i: usize = 0;
    while i < values.len()
        invariant
            host.well_formed(),
            i <= values.len(),
            all == printed(host.numbers(), models(values@)),
            texts(output@) == before + all.take(i as int),
        decreases values.len() - i,
    {
        let mut text = display(&values[i], host);
        text.append(" ");
        proof {
            lemma_texts_push(output@, text);
            assert(all.take(i as int + 1) =~= all.take(i as int).push(text@));
            assert(before + all.take(i as int + 1) =~= (before + all.take(i as int)).push(text@));
        }
        output.push(text);
        i += 1;
    }
    assert(all.take(values.len() as int) =~= all);
    Ok(Literal::Void)
}

/// Evaluates `do`. See [`do_outcome`].
pub fn eval_do<C: Fn(Calculation) -> u64, T: Fn(u64) -> i64, R: Fn(u64) -> String>(
    list: &Vec<Literal>,
    variables: &mut Variables,
    deleted: &mut Vec<Literal>,
    output: &mut Vec<String>,
    depth: usize,
    host: &Host<C, T, R>,
) -> (result: Result<Literal, EvalError>)
    requires
        host.well_formed(),
    ensures
        (Outcome {
            result: result_of(result),
            state: state_of(final(variables)@, final(deleted)@, final(output)@),
        }) == do_outcome(
            lenient(host.numbers()),
            models(list@),
            state_of(old(variables)@, old(deleted)@, old(output)@),
            depth as nat,
        ),
    decreases depth, 2nat,
{
    match eval_each(list, 1, variables, deleted, output, depth, host) {
        Ok(_) => Ok(Literal::Void),
        Err(e) => Err(e),
    }
}

/// Evaluates `str`. See [`str_outcome`].
pub fn eval_str<C: Fn(Calculation) -> u64, T: Fn(u64) -> i64, R: Fn(u64) -> String>(
    list: &Vec<Literal>,
    variables: &mut Variables,
    deleted: &mut Vec<Literal>,
    output: &mut Vec<String>,
    depth: usize,
    host: &Host<C, T, R>,
) -> (result: Result<Literal, EvalError>)
    requires
        host.well_formed(),
    ensures
        (Outcome {
            result: result_of(result),
            state: state_of(final(variables)@, final(deleted)@, final(output)@),
        }) == str_outcome(
            lenient(host.numbers()),
            models(list@),
            state_of(old(variables)@, old(deleted)@, old(output)@),
            depth as nat,
        ),
    decreases depth, 2nat,
{
    let values = match eval_each(list, 1, variables, deleted, output, depth, host) {
        Ok(values) => values,
        Err(e) => {
            return Err(e);
        },
    };
    if values.len() == 0 {
        return Ok(Literal::Void);
    }
    let ghost all = displayed_all(host.numbers(), models(values@));
    let mut text = String::new();
    let mut i: usize = 0;
    assert(all.take(0) =~= Seq::<Seq<char>>::empty());
    while i < values.len()
        invariant
            host.well_formed(),
            i <= values.len(),
            all == displayed_all(host.numbers(), models(values@)),
            text@ == all.take(i as int).flatten(),
        decreases values.len() - i,
    {
        let part = display(&values[i], host);
        proof {
            assert(all.take(i as int + 1) =~= all.take(i as int).push(part@));
            all.take(i as int).lemma_flatten_push(part@);
        }
        text.append(part.as_str());
        i += 1;
    }
    assert(all.take(values.len() as int) =~= all);
    Ok(Literal::String(text))
}

/// Evaluates `delete`: adds the operands, as they are written, to the
/// deleted values.
pub fn eval_delete(list: &Vec<Literal>, deleted: &mut Vec<Literal>) -> (result: Result<
    Literal,
    EvalError,
>)
    ensures
        result_of(result) == Ok::<Value, EvalError>(Value::Void),
        models(final(deleted)@) == models(old(deleted)@) + operands(models(list@)),
{
    let ghost before = models(deleted@);
    let ghost added = operands(models(list@));
    assert(before + added.take(0) =~= before);
    if list.len() == 0 {
        assert(before + added =~= before);
        return Ok(Literal::Void);
    }
    let mut i: usize = 1;
    while i < list.len()
        invariant
            1 <= i <= list.len(),
            added == operands(models(list@)),
            models(deleted@) == before + added.take(i - 1),
        decreases list.len() - i,
    {
        let item = list[i].clone();
        proof {
            lemma_models_push(deleted@, item);
            assert(added.take(i as int) =~= added.take(i - 1).push(item@));
            assert(before + added.take(i as int) =~= (before + added.take(i - 1)).push(item@));
        }
        deleted.push(item);
        i += 1;
    }
    assert(added.take(added.len() as int) =~= added);
    Ok(Literal::Void)
}

} // verus!
