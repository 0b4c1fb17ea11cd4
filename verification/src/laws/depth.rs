//! The depth only cuts evaluations off.
//!
//! The evaluator lets `filter` leave out an item whose call exceeds the
//! depth, as it leaves out every item whose call fails. The laws here say
//! when that cannot have happened: when the evaluation does not exceed its
//! depth under the strict rules, which let no failure by depth go unseen.

use vstd::prelude::*;
use crate::comparison::contains_value;
use crate::error::EvalError;
use crate::host::{Calculation, Numbers};
use crate::literals::{MathOperators, Value};
use crate::semantics::{
    Rules, State, applied_function, binary_operator_outcome, bound, call_form, call_outcome,
    define_outcome, do_outcome, double_argument_outcome, each_outcome, filter_from_outcome,
    filter_outcome, fold_outcome, if_outcome, is_vector_operator, join_outcome, lenient,
    list_outcome, literal_outcome, map_from_outcome, map_outcome, math_function_named, math_outcome,
    nth_outcome, print_outcome, program_outcome, range_outcome, single_argument_outcome,
    str_outcome, strict, vector_outcome,
};

verus! {

/// Whether a result says that the evaluation exceeded its depth.
pub open spec fn exceeded(result: Result<Value, EvalError>) -> bool {
    result == Err::<Value, EvalError>(EvalError::DepthExceeded)
}

proof fn lemma_literal_deeper(
    rules: Rules,
    other: Rules,
    v: Value,
    s: State,
    shallow: nat,
    deep: nat,
)
    requires
        shallow <= deep,
        rules.cut_ends_filter,
        other.numbers == rules.numbers,
        !exceeded(literal_outcome(rules, v, s, shallow).result),
    ensures
        literal_outcome(other, v, s, deep) == literal_outcome(rules, v, s, shallow),
    decreases shallow, 0nat, 0nat,
{
    if !contains_value(s.deleted, v) {
        match v {
            Value::List(items) => {
                lemma_list_deeper(rules, other, items, s, (shallow - 1) as nat, (deep - 1) as nat);
            },
            _ => {},
        }
    }
}

proof fn lemma_list_deeper(
    rules: Rules,
    other: Rules,
    list: Seq<Value>,
    s: State,
    shallow: nat,
    deep: nat,
)
    requires
        shallow <= deep,
        rules.cut_ends_filter,
        other.numbers == rules.numbers,
        !exceeded(list_outcome(rules, list, s, shallow).result),
    ensures
        list_outcome(other, list, s, deep) == list_outcome(rules, list, s, shallow),
    decreases shallow, 4nat, 0nat,
{
    if list.len() > 0 {
        match list[0] {
            Value::List(inner) => {
                lemma_list_deeper(rules, other, inner, s, (shallow - 1) as nat, (deep - 1) as nat);
            },
            Value::MathOperator(_) => {
                lemma_math_deeper(rules, other, list, s, shallow, deep);
            },
            Value::BinaryOperator(_) => {
                lemma_relation_deeper(rules, other, list, s, shallow, deep);
            },
            Value::If => {
                lemma_if_deeper(rules, other, list, s, shallow, deep);
            },
            Value::Vector(_) => {
                lemma_literal_deeper(rules, other, list[0], s, shallow, deep);
            },
            Value::Symbol(name) => {
                if name == "fn"@ {
                } else if name == "define"@ {
                    lemma_define_deeper(rules, other, list, s, shallow, deep);
                } else if name == "print"@ {
                    lemma_print_deeper(rules, other, list, s, shallow, deep);
                } else if name == "do"@ {
                    lemma_do_deeper(rules, other, list, s, shallow, deep);
                } else if name == "str"@ {
                    lemma_str_deeper(rules, other, list, s, shallow, deep);
                } else if name == "delete"@ {
                } else if math_function_named(name) is Some {
                    lemma_single_argument_deeper(rules, other, list, s, shallow, deep);
                } else if name == "mod"@ {
                    lemma_double_argument_deeper(rules, other, list, s, shallow, deep);
                } else if is_vector_operator(name) {
                    lemma_vector_deeper(rules, other, list, s, shallow, deep);
                } else if s.variables.contains_key(name) {
                    if s.variables[name] is Function {
                        lemma_call_deeper(rules, other, s.variables[name], list, s, shallow, deep);
                    }
                }
            },
            _ => {},
        }
    }
}

proof fn lemma_each_deeper(
    rules: Rules,
    other: Rules,
    list: Seq<Value>,
    from: nat,
    collected: Seq<Value>,
    s: State,
    shallow: nat,
    deep: nat,
)
    requires
        shallow <= deep,
        rules.cut_ends_filter,
        other.numbers == rules.numbers,
        each_outcome(rules, list, from, collected, s, shallow).result != Err::<
            Seq<Value>,
            EvalError,
        >(EvalError::DepthExceeded),
    ensures
        each_outcome(other, list, from, collected, s, deep) == each_outcome(
            rules,
            list,
            from,
            collected,
            s,
            shallow,
        ),
    decreases shallow, 1nat, list.len() - from,
{
    if from < list.len() {
        let step = literal_outcome(rules, list[from as int], s, shallow);
        lemma_literal_deeper(rules, other, list[from as int], s, shallow, deep);
        match step.result {
            Ok(v) => {
                lemma_each_deeper(
                    rules,
                    other,
                    list,
                    from + 1,
                    collected.push(v),
                    step.state,
                    shallow,
                    deep,
                );
            },
            Err(_) => {},
        }
    }
}

proof fn lemma_math_deeper(
    rules: Rules,
    other: Rules,
    list: Seq<Value>,
    s: State,
    shallow: nat,
    deep: nat,
)
    requires
        shallow <= deep,
        rules.cut_ends_filter,
        other.numbers == rules.numbers,
        !exceeded(math_outcome(rules, list, s, shallow).result),
    ensures
        math_outcome(other, list, s, deep) == math_outcome(rules, list, s, shallow),
    decreases shallow, 2nat, 0nat,
{
    if list.len() >= 2 {
        match list[0] {
            Value::MathOperator(op) => {
                let first = literal_outcome(rules, list[1], s, shallow);
                lemma_literal_deeper(rules, other, list[1], s, shallow, deep);
                match first.result {
                    Ok(Value::Number(start)) => {
                        lemma_fold_deeper(
                            rules,
                            other,
                            op,
                            list,
                            2,
                            start,
                            first.state,
                            shallow,
                            deep,
                        );
                    },
                    _ => {},
                }
            },
            _ => {},
        }
    }
}

proof fn lemma_fold_deeper(
    rules: Rules,
    other: Rules,
    op: MathOperators,
    list: Seq<Value>,
    from: nat,
    accumulated: u64,
    s: State,
    shallow: nat,
    deep: nat,
)
    requires
        shallow <= deep,
        rules.cut_ends_filter,
        other.numbers == rules.numbers,
        !exceeded(fold_outcome(rules, op, list, from, accumulated, s, shallow).result),
    ensures
        fold_outcome(other, op, list, from, accumulated, s, deep) == fold_outcome(
            rules,
            op,
            list,
            from,
            accumulated,
            s,
            shallow,
        ),
    decreases shallow, 1nat, list.len() - from,
{
    if from < list.len() {
        let step = literal_outcome(rules, list[from as int], s, shallow);
        lemma_literal_deeper(rules, other, list[from as int], s, shallow, deep);
        match step.result {
            Ok(Value::Number(operand)) => {
                let next = (
                    rules.numbers.calculate)(Calculation::Arithmetic(op, accumulated, operand),
                );
                lemma_fold_deeper(
                    rules,
                    other,
                    op,
                    list,
                    from + 1,
                    next,
                    step.state,
                    shallow,
                    deep,
                );
            },
            _ => {},
        }
    }
}

proof fn lemma_relation_deeper(
    rules: Rules,
    other: Rules,
    list: Seq<Value>,
    s: State,
    shallow: nat,
    deep: nat,
)
    requires
        shallow <= deep,
        rules.cut_ends_filter,
        other.numbers == rules.numbers,
        !exceeded(binary_operator_outcome(rules, list, s, shallow).result),
    ensures
        binary_operator_outcome(other, list, s, deep) == binary_operator_outcome(
            rules,
            list,
            s,
            shallow,
        ),
    decreases shallow, 2nat, 0nat,
{
    if list.len() == 3 && list[0] is BinaryOperator {
        let left = literal_outcome(rules, list[1], s, shallow);
        lemma_literal_deeper(rules, other, list[1], s, shallow, deep);
        if left.result is Ok {
            lemma_literal_deeper(rules, other, list[2], left.state, shallow, deep);
        }
    }
}

proof fn lemma_if_deeper(
    rules: Rules,
    other: Rules,
    list: Seq<Value>,
    s: State,
    shallow: nat,
    deep: nat,
)
    requires
        shallow <= deep,
        rules.cut_ends_filter,
        other.numbers == rules.numbers,
        !exceeded(if_outcome(rules, list, s, shallow).result),
    ensures
        if_outcome(other, list, s, deep) == if_outcome(rules, list, s, shallow),
    decreases shallow, 2nat, 0nat,
{
    if list.len() == 4 {
        let condition = literal_outcome(rules, list[1], s, shallow);
        lemma_literal_deeper(rules, other, list[1], s, shallow, deep);
        match condition.result {
            Ok(Value::Boolean(holds)) => {
                let branch = if holds {
                    list[2]
                } else {
                    list[3]
                };
                lemma_literal_deeper(rules, other, branch, condition.state, shallow, deep);
            },
            _ => {},
        }
    }
}

proof fn lemma_define_deeper(
    rules: Rules,
    other: Rules,
    list: Seq<Value>,
    s: State,
    shallow: nat,
    deep: nat,
)
    requires
        shallow <= deep,
        rules.cut_ends_filter,
        other.numbers == rules.numbers,
        !exceeded(define_outcome(rules, list, s, shallow).result),
    ensures
        define_outcome(other, list, s, deep) == define_outcome(rules, list, s, shallow),
    decreases shallow, 2nat, 0nat,
{
    if list.len() >= 3 && list[1] is Symbol {
        lemma_literal_deeper(rules, other, list[2], s, shallow, deep);
    }
}

proof fn lemma_do_deeper(
    rules: Rules,
    other: Rules,
    list: Seq<Value>,
    s: State,
    shallow: nat,
    deep: nat,
)
    requires
        shallow <= deep,
        rules.cut_ends_filter,
        other.numbers == rules.numbers,
        !exceeded(do_outcome(rules, list, s, shallow).result),
    ensures
        do_outcome(other, list, s, deep) == do_outcome(rules, list, s, shallow),
    decreases shallow, 2nat, 0nat,
{
    lemma_each_deeper(rules, other, list, 1, Seq::empty(), s, shallow, deep);
}

proof fn lemma_str_deeper(
    rules: Rules,
    other: Rules,
    list: Seq<Value>,
    s: State,
    shallow: nat,
    deep: nat,
)
    requires
        shallow <= deep,
        rules.cut_ends_filter,
        other.numbers == rules.numbers,
        !exceeded(str_outcome(rules, list, s, shallow).result),
    ensures
        str_outcome(other, list, s, deep) == str_outcome(rules, list, s, shallow),
    decreases shallow, 2nat, 0nat,
{
    lemma_each_deeper(rules, other, list, 1, Seq::empty(), s, shallow, deep);
}

proof fn lemma_print_deeper(
    rules: Rules,
    other: Rules,
    list: Seq<Value>,
    s: State,
    shallow: nat,
    deep: nat,
)
    requires
        shallow <= deep,
        rules.cut_ends_filter,
        other.numbers == rules.numbers,
        !exceeded(print_outcome(rules, list, s, shallow).result),
    ensures
        print_outcome(other, list, s, deep) == print_outcome(rules, list, s, shallow),
    decreases shallow, 2nat, 0nat,
{
    lemma_each_deeper(rules, other, list, 1, Seq::empty(), s, shallow, deep);
}

proof fn lemma_call_deeper(
    rules: Rules,
    other: Rules,
    function: Value,
    list: Seq<Value>,
    s: State,
    shallow: nat,
    deep: nat,
)
    requires
        shallow <= deep,
        rules.cut_ends_filter,
        other.numbers == rules.numbers,
        !exceeded(call_outcome(rules, function, list, s, shallow).result),
    ensures
        call_outcome(other, function, list, s, deep) == call_outcome(
            rules,
            function,
            list,
            s,
            shallow,
        ),
    decreases shallow, 2nat, 0nat,
{
    let arguments = each_outcome(rules, list, 1, Seq::empty(), s, shallow);
    lemma_each_deeper(rules, other, list, 1, Seq::empty(), s, shallow, deep);
    match arguments.result {
        Ok(values) => match function {
            Value::Function { args, body, .. } => {
                if values.len() == args.len() {
                    let local = State {
                        variables: bound(arguments.state.variables, args, values, 0),
                        ..arguments.state
                    };
                    lemma_literal_deeper(rules, other, *body, local, shallow, deep);
                }
            },
            _ => {},
        },
        Err(_) => {},
    }
}

proof fn lemma_single_argument_deeper(
    rules: Rules,
    other: Rules,
    list: Seq<Value>,
    s: State,
    shallow: nat,
    deep: nat,
)
    requires
        shallow <= deep,
        rules.cut_ends_filter,
        other.numbers == rules.numbers,
        !exceeded(single_argument_outcome(rules, list, s, shallow).result),
    ensures
        single_argument_outcome(other, list, s, deep) == single_argument_outcome(
            rules,
            list,
            s,
            shallow,
        ),
    decreases shallow, 2nat, 0nat,
{
    if list.len() == 2 && list[0] is Symbol {
        lemma_literal_deeper(rules, other, list[1], s, shallow, deep);
    }
}

proof fn lemma_double_argument_deeper(
    rules: Rules,
    other: Rules,
    list: Seq<Value>,
    s: State,
    shallow: nat,
    deep: nat,
)
    requires
        shallow <= deep,
        rules.cut_ends_filter,
        other.numbers == rules.numbers,
        !exceeded(double_argument_outcome(rules, list, s, shallow).result),
    ensures
        double_argument_outcome(other, list, s, deep) == double_argument_outcome(
            rules,
            list,
            s,
            shallow,
        ),
    decreases shallow, 2nat, 0nat,
{
    if list.len() == 3 && list[0] is Symbol {
        let left = literal_outcome(rules, list[1], s, shallow);
        lemma_literal_deeper(rules, other, list[1], s, shallow, deep);
        if left.result is Ok && left.result->Ok_0 is Number {
            lemma_literal_deeper(rules, other, list[2], left.state, shallow, deep);
        }
    }
}

proof fn lemma_vector_deeper(
    rules: Rules,
    other: Rules,
    list: Seq<Value>,
    s: State,
    shallow: nat,
    deep: nat,
)
    requires
        shallow <= deep,
        rules.cut_ends_filter,
        other.numbers == rules.numbers,
        !exceeded(vector_outcome(rules, list, s, shallow).result),
    ensures
        vector_outcome(other, list, s, deep) == vector_outcome(rules, list, s, shallow),
    decreases shallow, 3nat, 0nat,
{
    if list.len() > 0 {
        match list[0] {
            Value::Symbol(name) => {
                if name == "nth"@ {
                    lemma_nth_deeper(rules, other, list, s, shallow, deep);
                } else if name == "join"@ || name == "push"@ {
                    lemma_join_deeper(rules, other, list, s, shallow, deep);
                } else if name == "range"@ {
                    lemma_range_deeper(rules, other, list, s, shallow, deep);
                } else if name == "map"@ {
                    lemma_map_deeper(rules, other, list, s, shallow, deep);
                } else if name == "filter"@ {
                    lemma_filter_deeper(rules, other, list, s, shallow, deep);
                }
            },
            _ => {},
        }
    }
}

proof fn lemma_nth_deeper(
    rules: Rules,
    other: Rules,
    list: Seq<Value>,
    s: State,
    shallow: nat,
    deep: nat,
)
    requires
        shallow <= deep,
        rules.cut_ends_filter,
        other.numbers == rules.numbers,
        !exceeded(nth_outcome(rules, list, s, shallow).result),
    ensures
        nth_outcome(other, list, s, deep) == nth_outcome(rules, list, s, shallow),
    decreases shallow, 2nat, 0nat,
{
    if list.len() == 3 {
        let vector = literal_outcome(rules, list[1], s, shallow);
        lemma_literal_deeper(rules, other, list[1], s, shallow, deep);
        if vector.result is Ok && vector.result->Ok_0 is Vector {
            lemma_literal_deeper(rules, other, list[2], vector.state, shallow, deep);
        }
    }
}

proof fn lemma_join_deeper(
    rules: Rules,
    other: Rules,
    list: Seq<Value>,
    s: State,
    shallow: nat,
    deep: nat,
)
    requires
        shallow <= deep,
        rules.cut_ends_filter,
        other.numbers == rules.numbers,
        !exceeded(join_outcome(rules, list, s, shallow).result),
    ensures
        join_outcome(other, list, s, deep) == join_outcome(rules, list, s, shallow),
    decreases shallow, 2nat, 0nat,
{
    if list.len() >= 2 {
        let vector = literal_outcome(rules, list[1], s, shallow);
        lemma_literal_deeper(rules, other, list[1], s, shallow, deep);
        if vector.result is Ok && vector.result->Ok_0 is Vector {
            lemma_each_deeper(rules, other, list, 2, Seq::empty(), vector.state, shallow, deep);
        }
    }
}

proof fn lemma_range_deeper(
    rules: Rules,
    other: Rules,
    list: Seq<Value>,
    s: State,
    shallow: nat,
    deep: nat,
)
    requires
        shallow <= deep,
        rules.cut_ends_filter,
        other.numbers == rules.numbers,
        !exceeded(range_outcome(rules, list, s, shallow).result),
    ensures
        range_outcome(other, list, s, deep) == range_outcome(rules, list, s, shallow),
    decreases shallow, 2nat, 0nat,
{
    if list.len() >= 2 {
        let start = literal_outcome(rules, list[1], s, shallow);
        lemma_literal_deeper(rules, other, list[1], s, shallow, deep);
        if list.len() >= 3 && start.result is Ok && start.result->Ok_0 is Number {
            lemma_literal_deeper(rules, other, list[2], start.state, shallow, deep);
        }
    }
}

proof fn lemma_map_deeper(
    rules: Rules,
    other: Rules,
    list: Seq<Value>,
    s: State,
    shallow: nat,
    deep: nat,
)
    requires
        shallow <= deep,
        rules.cut_ends_filter,
        other.numbers == rules.numbers,
        !exceeded(map_outcome(rules, list, s, shallow).result),
    ensures
        map_outcome(other, list, s, deep) == map_outcome(rules, list, s, shallow),
    decreases shallow, 2nat, 0nat,
{
    if list.len() == 3 {
        match applied_function(list, s.variables) {
            Ok(name) => {
                let vector = literal_outcome(rules, list[2], s, shallow);
                lemma_literal_deeper(rules, other, list[2], s, shallow, deep);
                match vector.result {
                    Ok(Value::Vector(items)) => {
                        lemma_map_from_deeper(
                            rules,
                            other,
                            name,
                            items,
                            0,
                            Seq::empty(),
                            vector.state,
                            shallow,
                            deep,
                        );
                    },
                    _ => {},
                }
            },
            Err(_) => {},
        }
    }
}

proof fn lemma_map_from_deeper(
    rules: Rules,
    other: Rules,
    name: Seq<char>,
    items: Seq<Value>,
    from: nat,
    collected: Seq<Value>,
    s: State,
    shallow: nat,
    deep: nat,
)
    requires
        shallow <= deep,
        rules.cut_ends_filter,
        other.numbers == rules.numbers,
        !exceeded(map_from_outcome(rules, name, items, from, collected, s, shallow).result),
    ensures
        map_from_outcome(other, name, items, from, collected, s, deep) == map_from_outcome(
            rules,
            name,
            items,
            from,
            collected,
            s,
            shallow,
        ),
    decreases shallow, 1nat, items.len() - from,
{
    if from < items.len() {
        let form = call_form(name, items[from as int]);
        let call = literal_outcome(rules, form, s, shallow);
        lemma_literal_deeper(rules, other, form, s, shallow, deep);
        match call.result {
            Ok(Value::Void) => {
                lemma_map_from_deeper(
                    rules,
                    other,
                    name,
                    items,
                    from + 1,
                    collected,
                    call.state,
                    shallow,
                    deep,
                );
            },
            Ok(v) => {
                lemma_map_from_deeper(
                    rules,
                    other,
                    name,
                    items,
                    from + 1,
                    collected.push(v),
                    call.state,
                    shallow,
                    deep,
                );
            },
            Err(_) => {},
        }
    }
}

proof fn lemma_filter_deeper(
    rules: Rules,
    other: Rules,
    list: Seq<Value>,
    s: State,
    shallow: nat,
    deep: nat,
)
    requires
        shallow <= deep,
        rules.cut_ends_filter,
        other.numbers == rules.numbers,
        !exceeded(filter_outcome(rules, list, s, shallow).result),
    ensures
        filter_outcome(other, list, s, deep) == filter_outcome(rules, list, s, shallow),
    decreases shallow, 2nat, 0nat,
{
    if list.len() == 3 {
        match applied_function(list, s.variables) {
            Ok(name) => {
                let vector = literal_outcome(rules, list[2], s, shallow);
                lemma_literal_deeper(rules, other, list[2], s, shallow, deep);
                match vector.result {
                    Ok(Value::Vector(items)) => {
                        lemma_filter_from_deeper(
                            rules,
                            other,
                            name,
                            items,
                            0,
                            Seq::empty(),
                            vector.state,
                            shallow,
                            deep,
                        );
                    },
                    _ => {},
                }
            },
            Err(_) => {},
        }
    }
}

proof fn lemma_filter_from_deeper(
    rules: Rules,
    other: Rules,
    name: Seq<char>,
    items: Seq<Value>,
    from: nat,
    kept: Seq<Value>,
    s: State,
    shallow: nat,
    deep: nat,
)
    requires
        shallow <= deep,
        rules.cut_ends_filter,
        other.numbers == rules.numbers,
        !exceeded(filter_from_outcome(rules, name, items, from, kept, s, shallow).result),
    ensures
        filter_from_outcome(other, name, items, from, kept, s, deep) == filter_from_outcome(
            rules,
            name,
            items,
            from,
            kept,
            s,
            shallow,
        ),
    decreases shallow, 1nat, items.len() - from,
{
    if from < items.len() {
        let form = call_form(name, items[from as int]);
        let call = literal_outcome(rules, form, s, shallow);
        if !exceeded(call.result) {
            lemma_literal_deeper(rules, other, form, s, shallow, deep);
            let next = if call.result == Ok::<Value, EvalError>(Value::Boolean(true)) {
                kept.push(items[from as int])
            } else {
                kept
            };
            lemma_filter_from_deeper(
                rules,
                other,
                name,
                items,
                from + 1,
                next,
                call.state,
                shallow,
                deep,
            );
        }
    }
}

/// The depth only cuts evaluations off. Where an evaluation does not exceed
/// its depth under the strict rules, under which no failure by depth goes
/// unseen, its outcome under the evaluator's rules is the same at every
/// greater depth, and it is the outcome under the strict rules.
pub proof fn law_depth_only_cuts_off(
    numbers: Numbers,
    v: Value,
    s: State,
    shallow: nat,
    deep: nat,
)
    requires
        shallow <= deep,
        !exceeded(literal_outcome(strict(numbers), v, s, shallow).result),
    ensures
        literal_outcome(lenient(numbers), v, s, deep) == literal_outcome(
            lenient(numbers),
            v,
            s,
            shallow,
        ),
        literal_outcome(lenient(numbers), v, s, shallow) == literal_outcome(
            strict(numbers),
            v,
            s,
            shallow,
        ),
{
    lemma_literal_deeper(strict(numbers), lenient(numbers), v, s, shallow, deep);
    lemma_literal_deeper(strict(numbers), lenient(numbers), v, s, shallow, shallow);
}

/// The depth only cuts programs off: the results of a program that does not
/// exceed its depth under the strict rules are its results at every greater
/// depth.
pub proof fn law_depth_only_cuts_programs_off(
    numbers: Numbers,
    program: Seq<Value>,
    output: Seq<Seq<char>>,
    shallow: nat,
    deep: nat,
)
    requires
        shallow <= deep,
        program_outcome(strict(numbers), program, output, shallow).result != Err::<
            Seq<Value>,
            EvalError,
        >(EvalError::DepthExceeded),
    ensures
        program_outcome(lenient(numbers), program, output, deep) == program_outcome(
            lenient(numbers),
            program,
            output,
            shallow,
        ),
{
    let start = State { variables: Map::empty(), deleted: Seq::empty(), output: output };
    lemma_each_deeper(
        strict(numbers),
        lenient(numbers),
        program,
        0,
        Seq::empty(),
        start,
        shallow,
        deep,
    );
    lemma_each_deeper(
        strict(numbers),
        lenient(numbers),
        program,
        0,
        Seq::empty(),
        start,
        shallow,
        shallow,
    );
}

/// Without `filter` in the way, a failure by depth is seen: an evaluation
/// that fails with `DepthExceeded` under the evaluator's rules fails so
/// under the strict rules.
pub proof fn law_a_seen_cut_is_a_cut(numbers: Numbers, v: Value, s: State, depth: nat)
    requires
        exceeded(literal_outcome(lenient(numbers), v, s, depth).result),
    ensures
        exceeded(literal_outcome(strict(numbers), v, s, depth).result),
{
    if !exceeded(literal_outcome(strict(numbers), v, s, depth).result) {
        lemma_literal_deeper(strict(numbers), lenient(numbers), v, s, depth, depth);
    }
}

} // verus!
