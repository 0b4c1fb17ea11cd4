//! What a call does to the environment of its caller.

use vstd::prelude::*;
use crate::comparison::contains_value;
use crate::host::Calculation;
use crate::literals::{MathOperators, Value};
use crate::semantics::{
    Rules, State, binary_operator_outcome, bound, call_outcome, do_outcome, double_argument_outcome,
    each_outcome, fold_outcome, if_outcome, join_outcome, list_outcome, literal_outcome,
    math_outcome, nth_outcome, print_outcome, range_outcome, single_argument_outcome, str_outcome,
    vector_outcome,
};

verus! {

/// A call leaves the caller's environment as it was after the arguments
/// were evaluated: what the body defines is gone when the call returns.
pub proof fn law_call_keeps_the_callers_environment(
    rules: Rules,
    function: Value,
    list: Seq<Value>,
    s: State,
    depth: nat,
)
    ensures
        call_outcome(rules, function, list, s, depth).state.variables == each_outcome(
            rules,
            list,
            1,
            Seq::empty(),
            s,
            depth,
        ).state.variables,
{
}

/// Binding parameters leaves every other name as it was.
proof fn lemma_bound_keeps_other_names(
    variables: Map<Seq<char>, Value>,
    params: Seq<Seq<char>>,
    values: Seq<Value>,
    from: nat,
    name: Seq<char>,
)
    requires
        !params.contains(name),
    ensures
        bound(variables, params, values, from).contains_key(name) == variables.contains_key(name),
        variables.contains_key(name) ==> bound(variables, params, values, from)[name]
            == variables[name],
    decreases params.len() - from,
{
    if from < params.len() && from < values.len() {
        assert(params.contains(params[from as int]));
        lemma_bound_keeps_other_names(
            variables.insert(params[from as int], values[from as int]),
            params,
            values,
            from + 1,
            name,
        );
    }
}

/// The body of a function sees the caller's environment: a name that is
/// no parameter is bound in the body's environment to what the caller has
/// it bound to. So a function finds itself, and can call itself.
pub proof fn law_body_sees_the_callers_environment(
    variables: Map<Seq<char>, Value>,
    params: Seq<Seq<char>>,
    values: Seq<Value>,
    name: Seq<char>,
)
    requires
        !params.contains(name),
    ensures
        bound(variables, params, values, 0).contains_key(name) == variables.contains_key(name),
        variables.contains_key(name) ==> bound(variables, params, values, 0)[name]
            == variables[name],
{
    lemma_bound_keeps_other_names(variables, params, values, 0, name);
}

/// Whether an expression is plain: no form in it is a `define`, a `fn`, a
/// `map` or a `filter`. The first two bind names. The last two evaluate the
/// items of a vector, which are not part of the expression and may bind
/// names themselves.
pub open spec fn plain(v: Value) -> bool
    decreases v,
{
    match v {
        Value::List(items) => plain_form(items),
        _ => true,
    }
}

/// Whether a form is plain: it is none of the four, and its operands are
/// plain.
pub open spec fn plain_form(list: Seq<Value>) -> bool
    decreases list,
{
    list.len() == 0 || match list[0] {
        Value::List(inner) => plain_form(inner),
        Value::Symbol(name) => name != "fn"@ && name != "define"@ && name != "map"@ && name
            != "filter"@ && forall|i: int| 1 <= i < list.len() ==> plain(#[trigger] list[i]),
        Value::MathOperator(_) => forall|i: int| 1 <= i < list.len() ==> plain(#[trigger] list[i]),
        Value::BinaryOperator(_) => forall|i: int|
            1 <= i < list.len() ==> plain(#[trigger] list[i]),
        Value::If => forall|i: int| 1 <= i < list.len() ==> plain(#[trigger] list[i]),
        _ => true,
    }
}

/// Whether the operands of a form are plain.
pub open spec fn plain_operands(list: Seq<Value>) -> bool {
    forall|i: int| 1 <= i < list.len() ==> plain(#[trigger] list[i])
}

proof fn lemma_plain_literal(rules: Rules, v: Value, s: State, depth: nat)
    requires
        plain(v),
    ensures
        literal_outcome(rules, v, s, depth).state.variables == s.variables,
    decreases depth, 0nat, 0nat,
{
    if !contains_value(s.deleted, v) {
        match v {
            Value::List(items) => {
                if depth > 0 {
                    lemma_plain_list(rules, items, s, (depth - 1) as nat);
                }
            },
            _ => {},
        }
    }
}

proof fn lemma_plain_list(rules: Rules, list: Seq<Value>, s: State, depth: nat)
    requires
        plain_form(list),
    ensures
        list_outcome(rules, list, s, depth).state.variables == s.variables,
    decreases depth, 4nat, 0nat,
{
    if list.len() > 0 {
        match list[0] {
            Value::List(inner) => {
                if depth > 0 {
                    lemma_plain_list(rules, inner, s, (depth - 1) as nat);
                }
            },
            Value::MathOperator(_) => {
                lemma_plain_math(rules, list, s, depth);
            },
            Value::BinaryOperator(_) => {
                lemma_plain_relation(rules, list, s, depth);
            },
            Value::If => {
                lemma_plain_if(rules, list, s, depth);
            },
            Value::Vector(_) => {
                lemma_plain_literal(rules, list[0], s, depth);
            },
            Value::Symbol(name) => {
                lemma_plain_each(rules, list, 1, Seq::empty(), s, depth);
                lemma_plain_single_argument(rules, list, s, depth);
                lemma_plain_double_argument(rules, list, s, depth);
                lemma_plain_vector(rules, list, s, depth);
                if s.variables.contains_key(name) {
                    lemma_plain_call(rules, s.variables[name], list, s, depth);
                }
            },
            _ => {},
        }
    }
}

proof fn lemma_plain_each(
    rules: Rules,
    list: Seq<Value>,
    from: nat,
    collected: Seq<Value>,
    s: State,
    depth: nat,
)
    requires
        from >= 1,
        plain_operands(list),
    ensures
        each_outcome(rules, list, from, collected, s, depth).state.variables == s.variables,
        do_outcome(rules, list, s, depth).state.variables == each_outcome(
            rules,
            list,
            1,
            Seq::empty(),
            s,
            depth,
        ).state.variables,
        str_outcome(rules, list, s, depth).state.variables == each_outcome(
            rules,
            list,
            1,
            Seq::empty(),
            s,
            depth,
        ).state.variables,
        print_outcome(rules, list, s, depth).state.variables == each_outcome(
            rules,
            list,
            1,
            Seq::empty(),
            s,
            depth,
        ).state.variables,
    decreases depth, 1nat, list.len() - from,
{
    if from < list.len() {
        let step = literal_outcome(rules, list[from as int], s, depth);
        lemma_plain_literal(rules, list[from as int], s, depth);
        match step.result {
            Ok(v) => {
                lemma_plain_each(rules, list, from + 1, collected.push(v), step.state, depth);
            },
            Err(_) => {},
        }
    }
}

proof fn lemma_plain_math(rules: Rules, list: Seq<Value>, s: State, depth: nat)
    requires
        plain_operands(list),
    ensures
        math_outcome(rules, list, s, depth).state.variables == s.variables,
    decreases depth, 2nat, 0nat,
{
    if list.len() >= 2 {
        match list[0] {
            Value::MathOperator(op) => {
                let first = literal_outcome(rules, list[1], s, depth);
                lemma_plain_literal(rules, list[1], s, depth);
                match first.result {
                    Ok(Value::Number(start)) => {
                        lemma_plain_fold(rules, op, list, 2, start, first.state, depth);
                    },
                    _ => {},
                }
            },
            _ => {},
        }
    }
}

proof fn lemma_plain_fold(
    rules: Rules,
    op: MathOperators,
    list: Seq<Value>,
    from: nat,
    accumulated: u64,
    s: State,
    depth: nat,
)
    requires
        from >= 1,
        plain_operands(list),
    ensures
        fold_outcome(rules, op, list, from, accumulated, s, depth).state.variables == s.variables,
    decreases depth, 1nat, list.len() - from,
{
    if from < list.len() {
        let step = literal_outcome(rules, list[from as int], s, depth);
        lemma_plain_literal(rules, list[from as int], s, depth);
        match step.result {
            Ok(Value::Number(operand)) => {
                let next = (rules.numbers.calculate)(
                    Calculation::Arithmetic(op, accumulated, operand),
                );
                lemma_plain_fold(rules, op, list, from + 1, next, step.state, depth);
            },
            _ => {},
        }
    }
}

proof fn lemma_plain_relation(rules: Rules, list: Seq<Value>, s: State, depth: nat)
    requires
        plain_operands(list),
    ensures
        binary_operator_outcome(rules, list, s, depth).state.variables == s.variables,
    decreases depth, 2nat, 0nat,
{
    if list.len() == 3 && list[0] is BinaryOperator {
        let left = literal_outcome(rules, list[1], s, depth);
        lemma_plain_literal(rules, list[1], s, depth);
        if left.result is Ok {
            lemma_plain_literal(rules, list[2], left.state, depth);
        }
    }
}

proof fn lemma_plain_if(rules: Rules, list: Seq<Value>, s: State, depth: nat)
    requires
        plain_operands(list),
    ensures
        if_outcome(rules, list, s, depth).state.variables == s.variables,
    decreases depth, 2nat, 0nat,
{
    if list.len() == 4 {
        let condition = literal_outcome(rules, list[1], s, depth);
        lemma_plain_literal(rules, list[1], s, depth);
        match condition.result {
            Ok(Value::Boolean(holds)) => {
                let branch = if holds {
                    list[2]
                } else {
                    list[3]
                };
                lemma_plain_literal(rules, branch, condition.state, depth);
            },
            _ => {},
        }
    }
}

proof fn lemma_plain_call(rules: Rules, function: Value, list: Seq<Value>, s: State, depth: nat)
    requires
        plain_operands(list),
    ensures
        call_outcome(rules, function, list, s, depth).state.variables == s.variables,
    decreases depth, 2nat, 0nat,
{
    lemma_plain_each(rules, list, 1, Seq::empty(), s, depth);
}

proof fn lemma_plain_single_argument(rules: Rules, list: Seq<Value>, s: State, depth: nat)
    requires
        plain_operands(list),
    ensures
        single_argument_outcome(rules, list, s, depth).state.variables == s.variables,
    decreases depth, 2nat, 0nat,
{
    if list.len() == 2 && list[0] is Symbol {
        lemma_plain_literal(rules, list[1], s, depth);
    }
}

proof fn lemma_plain_double_argument(rules: Rules, list: Seq<Value>, s: State, depth: nat)
    requires
        plain_operands(list),
    ensures
        double_argument_outcome(rules, list, s, depth).state.variables == s.variables,
    decreases depth, 2nat, 0nat,
{
    if list.len() == 3 && list[0] is Symbol {
        let left = literal_outcome(rules, list[1], s, depth);
        lemma_plain_literal(rules, list[1], s, depth);
        if left.result is Ok {
            lemma_plain_literal(rules, list[2], left.state, depth);
        }
    }
}

proof fn lemma_plain_vector(rules: Rules, list: Seq<Value>, s: State, depth: nat)
    requires
        plain_operands(list),
        list.len() > 0,
        list[0] is Symbol,
        list[0]->Symbol_0 != "map"@,
        list[0]->Symbol_0 != "filter"@,
    ensures
        vector_outcome(rules, list, s, depth).state.variables == s.variables,
    decreases depth, 3nat, 0nat,
{
    lemma_plain_nth(rules, list, s, depth);
    lemma_plain_join(rules, list, s, depth);
    lemma_plain_range(rules, list, s, depth);
}

proof fn lemma_plain_nth(rules: Rules, list: Seq<Value>, s: State, depth: nat)
    requires
        plain_operands(list),
    ensures
        nth_outcome(rules, list, s, depth).state.variables == s.variables,
    decreases depth, 2nat, 0nat,
{
    if list.len() == 3 {
        let vector = literal_outcome(rules, list[1], s, depth);
        lemma_plain_literal(rules, list[1], s, depth);
        if vector.result is Ok {
            lemma_plain_literal(rules, list[2], vector.state, depth);
        }
    }
}

proof fn lemma_plain_join(rules: Rules, list: Seq<Value>, s: State, depth: nat)
    requires
        plain_operands(list),
    ensures
        join_outcome(rules, list, s, depth).state.variables == s.variables,
    decreases depth, 2nat, 0nat,
{
    if list.len() >= 2 {
        let vector = literal_outcome(rules, list[1], s, depth);
        lemma_plain_literal(rules, list[1], s, depth);
        if vector.result is Ok {
            lemma_plain_each(rules, list, 2, Seq::empty(), vector.state, depth);
        }
    }
}

proof fn lemma_plain_range(rules: Rules, list: Seq<Value>, s: State, depth: nat)
    requires
        plain_operands(list),
    ensures
        range_outcome(rules, list, s, depth).state.variables == s.variables,
    decreases depth, 2nat, 0nat,
{
    if list.len() >= 2 {
        let start = literal_outcome(rules, list[1], s, depth);
        lemma_plain_literal(rules, list[1], s, depth);
        if list.len() >= 3 && start.result is Ok {
            lemma_plain_literal(rules, list[2], start.state, depth);
        }
    }
}

/// A plain expression binds nothing: whatever its evaluation gives, and if
/// it fails too, the environment after it is the environment before it.
pub proof fn law_plain_expression_binds_nothing(rules: Rules, v: Value, s: State, depth: nat)
    requires
        plain(v),
    ensures
        literal_outcome(rules, v, s, depth).state.variables == s.variables,
{
    lemma_plain_literal(rules, v, s, depth);
}

/// A call on plain arguments leaves the environment of its caller as it
/// was, whether it succeeds or fails: the parameters are bound, and the
/// body defines what it defines, in the call's own copy of the environment,
/// which is gone when the call returns.
pub proof fn law_call_leaves_the_environment(
    rules: Rules,
    function: Value,
    list: Seq<Value>,
    s: State,
    depth: nat,
)
    requires
        plain_operands(list),
    ensures
        call_outcome(rules, function, list, s, depth).state.variables == s.variables,
        function is Function && each_outcome(rules, list, 1, Seq::empty(), s, depth).result is Ok
            && each_outcome(rules, list, 1, Seq::empty(), s, depth).result->Ok_0.len()
            == function->Function_args.len() ==> call_outcome(
            rules,
            function,
            list,
            s,
            depth,
        ).result == literal_outcome(
            rules,
            *function->Function_body,
            State {
                variables: bound(
                    s.variables,
                    function->Function_args,
                    each_outcome(rules, list, 1, Seq::empty(), s, depth).result->Ok_0,
                    0,
                ),
                ..each_outcome(rules, list, 1, Seq::empty(), s, depth).state
            },
            depth,
        ).result,
{
    lemma_plain_call(rules, function, list, s, depth);
    lemma_plain_each(rules, list, 1, Seq::empty(), s, depth);
}

} // verus!
