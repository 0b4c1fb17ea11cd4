//! The operators on vectors.

use vstd::prelude::*;
use crate::comparison::{Order, is_not_a_number, order_numbers, same_text};
use crate::environment::Variables;
use crate::error::EvalError;
use crate::evaluator::{eval_each, eval_literal, result_of, state_of};
use crate::host::{Calculation, Host, MathFunction};
use crate::literals::{
    Literal, Value, lemma_list_view, lemma_models_push, lemma_vector_view, models,
};
use crate::semantics::{
    Outcome, applied_function, call_form, filter_from_outcome, filter_outcome, integers_from,
    join_outcome, lenient, map_from_outcome, map_outcome, nth_outcome, range_outcome,
    vector_outcome,
};

verus! {

/// Evaluates a vector operator, by its name. See [`vector_outcome`].
pub fn eval_vector_operation<C: Fn(Calculation) -> u64, T: Fn(u64) -> i64, R: Fn(u64) -> String>(
    list: &Vec<Literal>,
    variables: &mut Variables,
    deleted: &mut Vec<Literal>,
    output: &mut Vec<String>,
    depth: usize,
    host: &Host<C, T, R>,
) -> (result: Result<Literal, EvalError>)
    requires
        host.well_formed(),
    ensures
        (Outcome {
            result: result_of(result),
            state: state_of(final(variables)@, final(deleted)@, final(output)@),
        }) == vector_outcome(
            lenient(host.numbers()),
            models(list@),
            state_of(old(variables)@, old(deleted)@, old(output)@),
            depth as nat,
        ),
    decreases depth, 3nat,
{
    if list.len() == 0 {
        return Err(EvalError::ArityMismatch);
    }
    assert(models(list@)[0] == list@[0]@);
    let name = match &list[0] {
        Literal::Symbol(name) => name.as_str(),
        _ => {
            return Err(EvalError::TypeMismatch);
        },
    };
    if same_text(name, "nth") {
        eval_nth(list, variables, deleted, output, depth, host)
    } else if same_text(name, "join") || same_text(name, "push") {
        eval_join(list, variables, deleted, output, depth, host)
    } else if same_text(name, "range") {
        eval_range(list, variables, deleted, output, depth, host)
    } else if same_text(name, "map") {
        eval_map(list, variables, deleted, output, depth, host)
    } else if same_text(name, "filter") {
        eval_filter(list, variables, deleted, output, depth, host)
    } else {
        Err(EvalError::UnknownOperator)
    }
}

/// Evaluates `nth`. See [`nth_outcome`].
pub fn eval_nth<C: Fn(Calculation) -> u64, T: Fn(u64) -> i64, R: Fn(u64) -> String>(
    list: &Vec<Literal>,
    variables: &mut Variables,
    deleted: &mut Vec<Literal>,
    output: &mut Vec<String>,
    depth: usize,
    host: &Host<C, T, R>,
) -> (result: Result<Literal, EvalError>)
    requires
        host.well_formed(),
    ensures
        (Outcome {
            result: result_of(result),
            state: state_of(final(variables)@, final(deleted)@, final(output)@),
        }) == nth_outcome(
            lenient(host.numbers()),
            models(list@),
            state_of(old(variables)@, old(deleted)@, old(output)@),
            depth as nat,
        ),
    decreases depth, 2nat,
{
    if list.len() != 3 {
        return Err(EvalError::ArityMismatch);
    }
    let items = match eval_literal(&list[1], variables, deleted, output, depth, host) {
        Ok(Literal::Vector(items)) => {
            proof {
                lemma_vector_view(items);
            }
            items
        },
        Ok(_) => {
            return Err(EvalError::TypeMismatch);
        },
        Err(e) => {
            return Err(e);
        },
    };
    let bits = match eval_literal(&list[2], variables, deleted, output, depth, host) {
        Ok(Literal::Number(bits)) => bits,
        Ok(_) => {
            return Err(EvalError::TypeMismatch);
        },
        Err(e) => {
            return Err(e);
        },
    };
    if is_not_a_number(bits) {
        return Ok(Literal::Void);
    }
    let rounded = host.calculate(Calculation::Function(MathFunction::Round, bits));
    match order_numbers(rounded, 0) {
        Some(Order::Equal) => {},
        Some(Order::Greater) => {},
        _ => {
            return Ok(Literal::Void);
        },
    }
    let whole = host.truncate(rounded);
    if whole < 0 {
        return Ok(Literal::Void);
    }
    let index: u64 = whole as u64;
    if index < items.len() as u64 {
        assert(models(items@)[index as int] == items@[index as int]@);
        Ok(items[index as usize].clone())
    } else {
        Ok(Literal::Void)
    }
}

/// Evaluates `join` and `push`. See [`join_outcome`].
pub fn eval_join<C: Fn(Calculation) -> u64, T: Fn(u64) -> i64, R: Fn(u64) -> String>(
    list: &Vec<Literal>,
    variables: &mut Variables,
    deleted: &mut Vec<Literal>,
    output: &mut Vec<String>,
    depth: usize,
    host: &Host<C, T, R>,
) -> (result: Result<Literal, EvalError>)
    requires
        host.well_formed(),
    ensures
        (Outcome {
            result: result_of(result),
            state: state_of(final(variables)@, final(deleted)@, final(output)@),
        }) == join_outcome(
            lenient(host.numbers()),
            models(list@),
            state_of(old(variables)@, old(deleted)@, old(output)@),
            depth as nat,
        ),
    decreases depth, 2nat,
{
    if list.len() < 2 {
        return Err(EvalError::ArityMismatch);
    }
    let mut items = match eval_literal(&list[1], variables, deleted, output, depth, host) {
        Ok(Literal::Vector(items)) => {
            proof {
                lemma_vector_view(items);
            }
            items
        },
        Ok(_) => {
            return Err(EvalError::TypeMismatch);
        },
        Err(e) => {
            return Err(e);
        },
    };
    let mut values = match eval_each(list, 2, variables, deleted, output, depth, host) {
        Ok(values) => values,
        Err(e) => {
            return Err(e);
        },
    };
    let ghost joined = models(items@) + models(values@);
    items.append(&mut values);
    proof {
        assert(models(items@) =~= joined);
        lemma_vector_view(items);
    }
    Ok(Literal::Vector(items))
}

/// Evaluates `range`. See [`range_outcome`].
pub fn eval_range<C: Fn(Calculation) -> u64, T: Fn(u64) -> i64, R: Fn(u64) -> String>(
    list: &Vec<Literal>,
    variables: &mut Variables,
    deleted: &mut Vec<Literal>,
    output: &mut Vec<String>,
    depth: usize,
    host: &Host<C, T, R>,
) -> (result: Result<Literal, EvalError>)
    requires
        host.well_formed(),
    ensures
        (Outcome {
            result: result_of(result),
            state: state_of(final(variables)@, final(deleted)@, final(output)@),
        }) == range_outcome(
            lenient(host.numbers()),
            models(list@),
            state_of(old(variables)@, old(deleted)@, old(output)@),
            depth as nat,
        ),
    decreases depth, 2nat,
{
    if list.len() < 2 {
        return Err(EvalError::ArityMismatch);
    }
    let from = match eval_literal(&list[1], variables, deleted, output, depth, host) {
        Ok(Literal::Number(bits)) => bits,
        Ok(_) => {
            return Err(EvalError::TypeMismatch);
        },
        Err(e) => {
            return Err(e);
        },
    };
    if list.len() < 3 {
        return Err(EvalError::ArityMismatch);
    }
    let to = match eval_literal(&list[2], variables, deleted, output, depth, host) {
        Ok(Literal::Number(bits)) => bits,
        Ok(_) => {
            return Err(EvalError::TypeMismatch);
        },
        Err(e) => {
            return Err(e);
        },
    };
    let start = host.truncate(from);
    let end = host.truncate(to);
    let ghost numbers = host.numbers();
    let mut items: Vec<Literal> = Vec::new();
    assert(models(items@) =~= integers_from(numbers, start, 0));
    if start <= end {
        let mut i: i64 = start;
        while i < end
            invariant
                host.well_formed(),
                numbers == host.numbers(),
                start <= i <= end,
                models(items@) == integers_from(numbers, start, (i - start) as nat),
            decreases end - i,
        {
            let item = Literal::Number(host.calculate(Calculation::FromInteger(i)));
            proof {
                lemma_models_push(items@, item);
                assert(integers_from(numbers, start, (i - start) as nat).push(item@)
                    =~= integers_from(numbers, start, (i + 1 - start) as nat));
            }
            items.push(item);
            i += 1;
        }
        let item = Literal::Number(host.calculate(Calculation::FromInteger(end)));
        proof {
            lemma_models_push(items@, item);
            assert(integers_from(numbers, start, (end - start) as nat).push(item@)
                =~= integers_from(numbers, start, (end + 1 - start) as nat));
        }
        items.push(item);
    }
    proof {
        lemma_vector_view(items);
    }
    Ok(Literal::Vector(items))
}

/// The name of the function that `map` and `filter` apply. See
/// [`applied_function`].
fn function_name_of(list: &Vec<Literal>, variables: &Variables) -> (result: Result<
    String,
    EvalError,
>)
    requires
        list.len() >= 2,
    ensures
        match result {
            Ok(name) => applied_function(models(list@), variables@) == Ok::<
                Seq<char>,
                EvalError,
            >(name@),
            Err(e) => applied_function(models(list@), variables@) == Err::<Seq<char>, EvalError>(
                e,
            ),
        },
{
    assert(models(list@)[1] == list@[1]@);
    match &list[1] {
        Literal::Symbol(name) => match variables.get(name) {
            Some(value) => match value {
                Literal::Function { .. } => Ok(name.clone()),
                _ => Err(EvalError::TypeMismatch),
            },
            None => Err(EvalError::UnknownSymbol),
        },
        _ => Err(EvalError::TypeMismatch),
    }
}

/// The call of the function named `name` on `argument`, as an expression.
fn call_of(name: &String, argument: &Literal) -> (call: Literal)
    ensures
        call@ == call_form(name@, argument@),
{
    let mut items: Vec<Literal> = Vec::new();
    items.push(Literal::Symbol(name.clone()));
    items.push(argument.clone());
    proof {
        lemma_list_view(items);
        assert(models(items@) =~= seq![Value::Symbol(name@), argument@]);
    }
    Literal::List(items)
}

/// Evaluates `map`. See [`map_outcome`].
pub fn eval_map<C: Fn(Calculation) -> u64, T: Fn(u64) -> i64, R: Fn(u64) -> String>(
    list: &Vec<Literal>,
    variables: &mut Variables,
    deleted: &mut Vec<Literal>,
    output: &mut Vec<String>,
    depth: usize,
    host: &Host<C, T, R>,
) -> (result: Result<Literal, EvalError>)
    requires
        host.well_formed(),
    ensures
        (Outcome {
            result: result_of(result),
            state: state_of(final(variables)@, final(deleted)@, final(output)@),
        }) == map_outcome(
            lenient(host.numbers()),
            models(list@),
            state_of(old(variables)@, old(deleted)@, old(output)@),
            depth as nat,
        ),
    decreases depth, 2nat,
{
    let ghost numbers = host.numbers();
    let ghost start = state_of(variables@, deleted@, output@);
    if list.len() != 3 {
        return Err(EvalError::ArityMismatch);
    }
    let name = match function_name_of(list, variables) {
        Ok(name) => name,
        Err(e) => {
            return Err(e);
        },
    };
    let items = match eval_literal(&list[2], variables, deleted, output, depth, host) {
        Ok(Literal::Vector(items)) => {
            proof {
                lemma_vector_view(items);
            }
            items
        },
        Ok(_) => {
            return Err(EvalError::TypeMismatch);
        },
        Err(e) => {
            return Err(e);
        },
    };
    let mut collected: Vec<Literal> = Vec::new();
    let mut i: usize = 0;
    assert(models(collected@) =~= Seq::<Value>::empty());
    while i < items.len()
        invariant
            host.well_formed(),
            numbers == host.numbers(),
            start == state_of(old(variables)@, old(deleted)@, old(output)@),
            i <= items.len(),
            map_from_outcome(
                lenient(numbers),
                name@,
                models(items@),
                i as nat,
                models(collected@),
                state_of(variables@, deleted@, output@),
                depth as nat,
            ) == map_outcome(lenient(numbers), models(list@), start, depth as nat),
        decreases items.len() - i,
    {
        let call = call_of(&name, &items[i]);
        assert(models(items@)[i as int] == items@[i as int]@);
        match eval_literal(&call, variables, deleted, output, depth, host) {
            Ok(Literal::Void) => {},
            Ok(value) => {
                proof {
                    lemma_models_push(collected@, value);
                }
                collected.push(value);
            },
            Err(e) => {
                return Err(e);
            },
        }
        i += 1;
    }
    proof {
        lemma_vector_view(collected);
    }
    Ok(Literal::Vector(collected))
}

/// Evaluates `filter`. See [`filter_outcome`].
pub fn eval_filter<C: Fn(Calculation) -> u64, T: Fn(u64) -> i64, R: Fn(u64) -> String>(
    list: &Vec<Literal>,
    variables: &mut Variables,
    deleted: &mut Vec<Literal>,
    output: &mut Vec<String>,
    depth: usize,
    host: &Host<C, T, R>,
) -> (result: Result<Literal, EvalError>)
    requires
        host.well_formed(),
    ensures
        (Outcome {
            result: result_of(result),
            state: state_of(final(variables)@, final(deleted)@, final(output)@),
        }) == filter_outcome(
            lenient(host.numbers()),
            models(list@),
            state_of(old(variables)@, old(deleted)@, old(output)@),
            depth as nat,
        ),
    decreases depth, 2nat,
{
    let ghost numbers = host.numbers();
    let ghost start = state_of(variables@, deleted@, output@);
    if list.len() != 3 {
        return Err(EvalError::ArityMismatch);
    }
    let name = match function_name_of(list, variables) {
        Ok(name) => name,
        Err(e) => {
            return Err(e);
        },
    };
    let items = match eval_literal(&list[2], variables, deleted, output, depth, host) {
        Ok(Literal::Vector(items)) => {
            proof {
                lemma_vector_view(items);
            }
            items
        },
        Ok(_) => {
            return Err(EvalError::TypeMismatch);
        },
        Err(e) => {
            return Err(e);
        },
    };
    let mut kept: Vec<Literal> = Vec::new();
    let mut i: usize = 0;
    assert(models(kept@) =~= Seq::<Value>::empty());
    while i < items.len()
        invariant
            host.well_formed(),
            numbers == host.numbers(),
            start == state_of(old(variables)@, old(deleted)@, old(output)@),
            i <= items.len(),
            filter_from_outcome(
                lenient(numbers),
                name@,
                models(items@),
                i as nat,
                models(kept@),
                state_of(variables@, deleted@, output@),
                depth as nat,
            ) == filter_outcome(lenient(numbers), models(list@), start, depth as nat),
        decreases items.len() - i,
    {
        let call = call_of(&name, &items[i]);
        assert(models(items@)[i as int] == items@[i as int]@);
        let keep = match eval_literal(&call, variables, deleted, output, depth, host) {
            Ok(Literal::Boolean(true)) => true,
            _ => false,
        };
        if keep {
            let item = items[i].clone();
            proof {
                lemma_models_push(kept@, item);
            }
            kept.push(item);
        }
        i += 1;
    }
    proof {
        lemma_vector_view(kept);
    }
    Ok(Literal::Vector(kept))
}

} // verus!
