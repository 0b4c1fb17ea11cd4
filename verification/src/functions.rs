//! Functions of the language: their definition and their call.

use vstd::prelude::*;
use crate::environment::Variables;
use crate::error::EvalError;
use crate::evaluator::{eval_each, eval_literal, result_of, state_of};
use crate::host::{Calculation, Host};
use crate::literals::{Literal, Value, lemma_vector_view, models, texts};
use crate::semantics::{
    Outcome, bound, call_outcome, defined_function, lenient, name_of, parameter_names, symbols,
};

verus! {

/// The names of the parameters that a vector of literals gives, if each of
/// them is a symbol or `Void`.
fn parameters_of(params: &Vec<Literal>) -> (names: Option<Vec<String>>)
    ensures
        match names {
            Some(names) => parameter_names(models(params@)) == Some(texts(names@)),
            None => parameter_names(models(params@)) is None,
        },
{
    let ghost values = models(params@);
    let mut names: Vec<String> = Vec::new();
    let mut i: usize = 0;
    proof {
        reveal(Seq::filter);
        assert(texts(names@) =~= values.take(0).filter(symbols()).map_values(name_of()));
    }
    while i < params.len()
        invariant
            i <= params.len(),
            values == models(params@),
            forall|j: int| 0 <= j < i ==> (#[trigger] values[j]) is Void || values[j] is Symbol,
            texts(names@) == values.take(i as int).filter(symbols()).map_values(name_of()),
        decreases params.len() - i,
    {
        proof {
            reveal(Seq::filter);
            assert(values[i as int] == params@[i as int]@);
            assert(values.take(i + 1).drop_last() =~= values.take(i as int));
        }
        match &params[i] {
            Literal::Void => {},
            Literal::Symbol(name) => {
                let name = name.clone();
                proof {
                    let before = values.take(i as int).filter(symbols());
                    assert(texts(names@.push(name)) =~= texts(names@).push(name@));
                    assert(before.push(values[i as int]).map_values(name_of())
                        =~= before.map_values(name_of()).push(name@));
                }
                names.push(name);
            },
            _ => {
                return None;
            },
        }
        i += 1;
    }
    assert(values.take(params.len() as int) =~= values);
    Some(names)
}

/// Evaluates `fn`: binds the function that the form defines to its name. See
/// [`defined_function`].
pub fn define_function(list: &Vec<Literal>, variables: &mut Variables) -> (result: Result<
    Literal,
    EvalError,
>)
    ensures
        match defined_function(models(list@)) {
            Ok((name, function)) => result_of(result) == Ok::<Value, EvalError>(Value::Void)
                && final(variables)@ == old(variables)@.insert(name, function),
            Err(e) => result_of(result) == Err::<Value, EvalError>(e) && final(variables)@ == old(
                variables,
            )@,
        },
{
    if list.len() < 2 {
        return Err(EvalError::ArityMismatch);
    }
    assert(models(list@)[1] == list@[1]@);
    let name = match &list[1] {
        Literal::Symbol(name) => name,
        _ => {
            return Err(EvalError::TypeMismatch);
        },
    };
    if list.len() < 3 {
        return Err(EvalError::ArityMismatch);
    }
    assert(models(list@)[2] == list@[2]@);
    let params = match &list[2] {
        Literal::Vector(params) => params,
        _ => {
            return Err(EvalError::TypeMismatch);
        },
    };
    proof {
        lemma_vector_view(*params);
    }
    let args = match parameters_of(params) {
        Some(args) => args,
        None => {
            return Err(EvalError::TypeMismatch);
        },
    };
    if list.len() < 4 {
        return Err(EvalError::ArityMismatch);
    }
    assert(models(list@)[3] == list@[3]@);
    let function = Literal::Function {
        name: name.clone(),
        args: args,
        body: Box::new(list[3].clone()),
    };
    variables.insert(name.clone(), function);
    Ok(Literal::Void)
}

/// Calls a function with the operands of `list` as arguments. See
/// [`call_outcome`].
pub fn eval_function<C: Fn(Calculation) -> u64, T: Fn(u64) -> i64, R: Fn(u64) -> String>(
    function: &Literal,
    list: &Vec<Literal>,
    variables: &mut Variables,
    deleted: &mut Vec<Literal>,
    output: &mut Vec<String>,
    depth: usize,
    host: &Host<C, T, R>,
) -> (result: Result<Literal, EvalError>)
    requires
        host.well_formed(),
    ensures
        (Outcome {
            result: result_of(result),
            state: state_of(final(variables)@, final(deleted)@, final(output)@),
        }) == call_outcome(
            lenient(host.numbers()),
            function@,
            models(list@),
            state_of(old(variables)@, old(deleted)@, old(output)@),
            depth as nat,
        ),
    decreases depth, 2nat,
{
    let values = match eval_each(list, 1, variables, deleted, output, depth, host) {
        Ok(values) => values,
        Err(e) => {
            return Err(e);
        },
    };
    match function {
        Literal::Function { args, body, .. } => {
            if values.len() != args.len() {
                return Err(EvalError::ArityMismatch);
            }
            let mut local = variables.clone();
            let mut i: usize = 0;
            while i < args.len()
                invariant
                    i <= args.len(),
                    values.len() == args.len(),
                    bound(local@, texts(args@), models(values@), i as nat) == bound(
                        variables@,
                        texts(args@),
                        models(values@),
                        0,
                    ),
                decreases args.len() - i,
            {
                local.insert(args[i].clone(), values[i].clone());
                i += 1;
            }
            eval_literal(body, &mut local, deleted, output, depth, host)
        },
        _ => Err(EvalError::TypeMismatch),
    }
}

} // verus!
