//! The deleted values and the output only grow, and what `delete` has
//! deleted stays deleted.

use vstd::prelude::*;
use crate::comparison::{contains_value, value_eq};
use crate::error::EvalError;
use crate::host::Calculation;
use crate::literals::{MathOperators, Value};
use crate::semantics::{
    Rules, State, applied_function, binary_operator_outcome, bound, call_form, call_outcome,
    define_outcome, delete_outcome, do_outcome, double_argument_outcome, each_outcome, failed,
    filter_from_outcome, filter_outcome, fold_outcome, if_outcome, join_outcome, list_outcome,
    literal_outcome, map_from_outcome, map_outcome, math_outcome, nth_outcome, operands,
    print_outcome, program_outcome, range_outcome, relation_outcome, single_argument_outcome,
    str_outcome, vector_outcome,
};

verus! {

/// Whether a state can come after another: it holds the deleted values and
/// the printed texts of the earlier one, in their order, and then perhaps
/// more.
pub open spec fn follows(later: State, earlier: State) -> bool {
    earlier.deleted.is_prefix_of(later.deleted) && earlier.output.is_prefix_of(later.output)
}

/// What follows a state that follows another, follows that other.
pub proof fn lemma_follows_transitive(last: State, middle: State, first: State)
    requires
        follows(last, middle),
        follows(middle, first),
    ensures
        follows(last, first),
{
    assert(first.deleted =~= last.deleted.subrange(0, first.deleted.len() as int)) by {
        assert(first.deleted =~= middle.deleted.subrange(0, first.deleted.len() as int));
        assert(middle.deleted =~= last.deleted.subrange(0, middle.deleted.len() as int));
    }
    assert(first.output =~= last.output.subrange(0, first.output.len() as int)) by {
        assert(first.output =~= middle.output.subrange(0, first.output.len() as int));
        assert(middle.output =~= last.output.subrange(0, middle.output.len() as int));
    }
}

/// A value that is deleted in a state is deleted in every state that
/// follows it.
pub proof fn lemma_deleted_stays_deleted(later: State, earlier: State, v: Value)
    requires
        follows(later, earlier),
        contains_value(earlier.deleted, v),
    ensures
        contains_value(later.deleted, v),
{
    let i = choose|i: int|
        0 <= i < earlier.deleted.len() && value_eq(#[trigger] earlier.deleted[i], v);
    assert(earlier.deleted =~= later.deleted.subrange(0, earlier.deleted.len() as int));
    assert(later.deleted[i] == earlier.deleted[i]);
}

proof fn lemma_literal_follows(rules: Rules, v: Value, s: State, depth: nat)
    ensures
        follows(literal_outcome(rules, v, s, depth).state, s),
    decreases depth, 0nat, 0nat,
{
    if depth > 0 && !contains_value(s.deleted, v) {
        match v {
            Value::List(items) => {
                lemma_list_follows(rules, items, s, (depth - 1) as nat);
            },
            _ => {},
        }
    }
}

proof fn lemma_list_follows(rules: Rules, list: Seq<Value>, s: State, depth: nat)
    ensures
        follows(list_outcome(rules, list, s, depth).state, s),
    decreases depth, 4nat, 0nat,
{
    if list.len() > 0 {
        match list[0] {
            Value::List(inner) => {
                if depth > 0 {
                    lemma_list_follows(rules, inner, s, (depth - 1) as nat);
                }
            },
            Value::MathOperator(_) => {
                lemma_math_follows(rules, list, s, depth);
            },
            Value::BinaryOperator(_) => {
                lemma_relation_follows(rules, list, s, depth);
            },
            Value::If => {
                lemma_if_follows(rules, list, s, depth);
            },
            Value::Vector(_) => {
                lemma_literal_follows(rules, list[0], s, depth);
            },
            Value::Symbol(name) => {
                lemma_define_follows(rules, list, s, depth);
                lemma_print_follows(rules, list, s, depth);
                lemma_do_follows(rules, list, s, depth);
                lemma_str_follows(rules, list, s, depth);
                lemma_delete_follows(list, s);
                lemma_single_argument_follows(rules, list, s, depth);
                lemma_double_argument_follows(rules, list, s, depth);
                lemma_vector_follows(rules, list, s, depth);
                if s.variables.contains_key(name) {
                    lemma_call_follows(rules, s.variables[name], list, s, depth);
                }
            },
            _ => {},
        }
    }
}

proof fn lemma_each_follows(
    rules: Rules,
    list: Seq<Value>,
    from: nat,
    collected: Seq<Value>,
    s: State,
    depth: nat,
)
    ensures
        follows(each_outcome(rules, list, from, collected, s, depth).state, s),
    decreases depth, 1nat, list.len() - from,
{
    if from < list.len() {
        let step = literal_outcome(rules, list[from as int], s, depth);
        lemma_literal_follows(rules, list[from as int], s, depth);
        match step.result {
            Ok(v) => {
                lemma_each_follows(rules, list, from + 1, collected.push(v), step.state, depth);
                lemma_follows_transitive(
                    each_outcome(rules, list, from, collected, s, depth).state,
                    step.state,
                    s,
                );
            },
            Err(_) => {},
        }
    }
}

proof fn lemma_math_follows(rules: Rules, list: Seq<Value>, s: State, depth: nat)
    ensures
        follows(math_outcome(rules, list, s, depth).state, s),
    decreases depth, 2nat, 0nat,
{
    if list.len() >= 2 && list[0] is MathOperator {
        let first = literal_outcome(rules, list[1], s, depth);
        lemma_literal_follows(rules, list[1], s, depth);
        match first.result {
            Ok(Value::Number(start)) => {
                lemma_fold_follows(
                    rules,
                    list[0]->MathOperator_0,
                    list,
                    2,
                    start,
                    first.state,
                    depth,
                );
                lemma_follows_transitive(
                    math_outcome(rules, list, s, depth).state,
                    first.state,
                    s,
                );
            },
            _ => {},
        }
    }
}

proof fn lemma_fold_follows(
    rules: Rules,
    op: MathOperators,
    list: Seq<Value>,
    from: nat,
    accumulated: u64,
    s: State,
    depth: nat,
)
    ensures
        follows(fold_outcome(rules, op, list, from, accumulated, s, depth).state, s),
    decreases depth, 1nat, list.len() - from,
{
    if from < list.len() {
        let step = literal_outcome(rules, list[from as int], s, depth);
        lemma_literal_follows(rules, list[from as int], s, depth);
        match step.result {
            Ok(Value::Number(operand)) => {
                let next = (rules.numbers.calculate)(
                    Calculation::Arithmetic(op, accumulated, operand),
                );
                lemma_fold_follows(rules, op, list, from + 1, next, step.state, depth);
                lemma_follows_transitive(
                    fold_outcome(rules, op, list, from, accumulated, s, depth).state,
                    step.state,
                    s,
                );
            },
            _ => {},
        }
    }
}

proof fn lemma_relation_follows(rules: Rules, list: Seq<Value>, s: State, depth: nat)
    ensures
        follows(binary_operator_outcome(rules, list, s, depth).state, s),
        follows(relation_outcome(rules, list, s, depth).state, s),
    decreases depth, 2nat, 0nat,
{
    if list.len() == 3 && list[0] is BinaryOperator {
        let left = literal_outcome(rules, list[1], s, depth);
        lemma_literal_follows(rules, list[1], s, depth);
        if left.result is Ok {
            let right = literal_outcome(rules, list[2], left.state, depth);
            lemma_literal_follows(rules, list[2], left.state, depth);
            lemma_follows_transitive(right.state, left.state, s);
        }
    }
}

proof fn lemma_if_follows(rules: Rules, list: Seq<Value>, s: State, depth: nat)
    ensures
        follows(if_outcome(rules, list, s, depth).state, s),
    decreases depth, 2nat, 0nat,
{
    if list.len() == 4 {
        let condition = literal_outcome(rules, list[1], s, depth);
        lemma_literal_follows(rules, list[1], s, depth);
        match condition.result {
            Ok(Value::Boolean(holds)) => {
                let branch = if holds {
                    list[2]
                } else {
                    list[3]
                };
                lemma_literal_follows(rules, branch, condition.state, depth);
                lemma_follows_transitive(
                    if_outcome(rules, list, s, depth).state,
                    condition.state,
                    s,
                );
            },
            _ => {},
        }
    }
}

proof fn lemma_define_follows(rules: Rules, list: Seq<Value>, s: State, depth: nat)
    ensures
        follows(define_outcome(rules, list, s, depth).state, s),
    decreases depth, 2nat, 0nat,
{
    if list.len() >= 3 && list[1] is Symbol {
        lemma_literal_follows(rules, list[2], s, depth);
    }
}

proof fn lemma_do_follows(rules: Rules, list: Seq<Value>, s: State, depth: nat)
    ensures
        follows(do_outcome(rules, list, s, depth).state, s),
    decreases depth, 2nat, 0nat,
{
    lemma_each_follows(rules, list, 1, Seq::empty(), s, depth);
}

proof fn lemma_str_follows(rules: Rules, list: Seq<Value>, s: State, depth: nat)
    ensures
        follows(str_outcome(rules, list, s, depth).state, s),
    decreases depth, 2nat, 0nat,
{
    lemma_each_follows(rules, list, 1, Seq::empty(), s, depth);
}

proof fn lemma_print_follows(rules: Rules, list: Seq<Value>, s: State, depth: nat)
    ensures
        follows(print_outcome(rules, list, s, depth).state, s),
    decreases depth, 2nat, 0nat,
{
    lemma_each_follows(rules, list, 1, Seq::empty(), s, depth);
    let each = each_outcome(rules, list, 1, Seq::empty(), s, depth);
    let after = print_outcome(rules, list, s, depth).state;
    assert(each.state.output.is_prefix_of(after.output));
    assert(follows(after, each.state));
    lemma_follows_transitive(after, each.state, s);
}

proof fn lemma_delete_follows(list: Seq<Value>, s: State)
    ensures
        follows(delete_outcome(list, s).state, s),
{
    assert(s.deleted.is_prefix_of(s.deleted + operands(list)));
}

proof fn lemma_call_follows(
    rules: Rules,
    function: Value,
    list: Seq<Value>,
    s: State,
    depth: nat,
)
    ensures
        follows(call_outcome(rules, function, list, s, depth).state, s),
    decreases depth, 2nat, 0nat,
{
    let arguments = each_outcome(rules, list, 1, Seq::empty(), s, depth);
    lemma_each_follows(rules, list, 1, Seq::empty(), s, depth);
    match arguments.result {
        Ok(values) => match function {
            Value::Function { args, body, .. } => {
                if values.len() == args.len() {
                    let local = State {
                        variables: bound(arguments.state.variables, args, values, 0),
                        ..arguments.state
                    };
                    lemma_literal_follows(rules, *body, local, depth);
                    let after = call_outcome(rules, function, list, s, depth).state;
                    assert(follows(after, arguments.state));
                    lemma_follows_transitive(after, arguments.state, s);
                }
            },
            _ => {},
        },
        Err(_) => {},
    }
}

proof fn lemma_single_argument_follows(rules: Rules, list: Seq<Value>, s: State, depth: nat)
    ensures
        follows(single_argument_outcome(rules, list, s, depth).state, s),
    decreases depth, 2nat, 0nat,
{
    if list.len() == 2 && list[0] is Symbol {
        lemma_literal_follows(rules, list[1], s, depth);
    }
}

proof fn lemma_double_argument_follows(rules: Rules, list: Seq<Value>, s: State, depth: nat)
    ensures
        follows(double_argument_outcome(rules, list, s, depth).state, s),
    decreases depth, 2nat, 0nat,
{
    if list.len() == 3 && list[0] is Symbol {
        let left = literal_outcome(rules, list[1], s, depth);
        lemma_literal_follows(rules, list[1], s, depth);
        if left.result is Ok {
            let right = literal_outcome(rules, list[2], left.state, depth);
            lemma_literal_follows(rules, list[2], left.state, depth);
            lemma_follows_transitive(right.state, left.state, s);
        }
    }
}

proof fn lemma_vector_follows(rules: Rules, list: Seq<Value>, s: State, depth: nat)
    ensures
        follows(vector_outcome(rules, list, s, depth).state, s),
    decreases depth, 3nat, 0nat,
{
    if list.len() > 0 && list[0] is Symbol {
        lemma_nth_follows(rules, list, s, depth);
        lemma_join_follows(rules, list, s, depth);
        lemma_range_follows(rules, list, s, depth);
        lemma_map_follows(rules, list, s, depth);
        lemma_filter_follows(rules, list, s, depth);
    }
}

proof fn lemma_nth_follows(rules: Rules, list: Seq<Value>, s: State, depth: nat)
    ensures
        follows(nth_outcome(rules, list, s, depth).state, s),
    decreases depth, 2nat, 0nat,
{
    if list.len() == 3 {
        let vector = literal_outcome(rules, list[1], s, depth);
        lemma_literal_follows(rules, list[1], s, depth);
        if vector.result is Ok {
            let index = literal_outcome(rules, list[2], vector.state, depth);
            lemma_literal_follows(rules, list[2], vector.state, depth);
            lemma_follows_transitive(index.state, vector.state, s);
        }
    }
}

proof fn lemma_join_follows(rules: Rules, list: Seq<Value>, s: State, depth: nat)
    ensures
        follows(join_outcome(rules, list, s, depth).state, s),
    decreases depth, 2nat, 0nat,
{
    if list.len() >= 2 {
        let vector = literal_outcome(rules, list[1], s, depth);
        lemma_literal_follows(rules, list[1], s, depth);
        if vector.result is Ok {
            let each = each_outcome(rules, list, 2, Seq::empty(), vector.state, depth);
            lemma_each_follows(rules, list, 2, Seq::empty(), vector.state, depth);
            lemma_follows_transitive(each.state, vector.state, s);
        }
    }
}

proof fn lemma_range_follows(rules: Rules, list: Seq<Value>, s: State, depth: nat)
    ensures
        follows(range_outcome(rules, list, s, depth).state, s),
    decreases depth, 2nat, 0nat,
{
    if list.len() >= 2 {
        let start = literal_outcome(rules, list[1], s, depth);
        lemma_literal_follows(rules, list[1], s, depth);
        if list.len() >= 3 && start.result is Ok {
            let end = literal_outcome(rules, list[2], start.state, depth);
            lemma_literal_follows(rules, list[2], start.state, depth);
            lemma_follows_transitive(end.state, start.state, s);
        }
    }
}

proof fn lemma_map_follows(rules: Rules, list: Seq<Value>, s: State, depth: nat)
    ensures
        follows(map_outcome(rules, list, s, depth).state, s),
    decreases depth, 2nat, 0nat,
{
    if list.len() == 3 {
        match applied_function(list, s.variables) {
            Ok(name) => {
                let vector = literal_outcome(rules, list[2], s, depth);
                lemma_literal_follows(rules, list[2], s, depth);
                match vector.result {
                    Ok(Value::Vector(items)) => {
                        lemma_map_from_follows(
                            rules,
                            name,
                            items,
                            0,
                            Seq::empty(),
                            vector.state,
                            depth,
                        );
                        lemma_follows_transitive(
                            map_outcome(rules, list, s, depth).state,
                            vector.state,
                            s,
                        );
                    },
                    _ => {},
                }
            },
            Err(_) => {},
        }
    }
}

proof fn lemma_map_from_follows(
    rules: Rules,
    name: Seq<char>,
    items: Seq<Value>,
    from: nat,
    collected: Seq<Value>,
    s: State,
    depth: nat,
)
    ensures
        follows(map_from_outcome(rules, name, items, from, collected, s, depth).state, s),
    decreases depth, 1nat, items.len() - from,
{
    if from < items.len() {
        let call = literal_outcome(rules, call_form(name, items[from as int]), s, depth);
        lemma_literal_follows(rules, call_form(name, items[from as int]), s, depth);
        match call.result {
            Ok(Value::Void) => {
                lemma_map_from_follows(
                    rules,
                    name,
                    items,
                    from + 1,
                    collected,
                    call.state,
                    depth,
                );
            },
            Ok(v) => {
                lemma_map_from_follows(
                    rules,
                    name,
                    items,
                    from + 1,
                    collected.push(v),
                    call.state,
                    depth,
                );
            },
            Err(_) => {},
        }
        lemma_follows_transitive(
            map_from_outcome(rules, name, items, from, collected, s, depth).state,
            call.state,
            s,
        );
    }
}

proof fn lemma_filter_follows(rules: Rules, list: Seq<Value>, s: State, depth: nat)
    ensures
        follows(filter_outcome(rules, list, s, depth).state, s),
    decreases depth, 2nat, 0nat,
{
    if list.len() == 3 {
        match applied_function(list, s.variables) {
            Ok(name) => {
                let vector = literal_outcome(rules, list[2], s, depth);
                lemma_literal_follows(rules, list[2], s, depth);
                match vector.result {
                    Ok(Value::Vector(items)) => {
                        lemma_filter_from_follows(
                            rules,
                            name,
                            items,
                            0,
                            Seq::empty(),
                            vector.state,
                            depth,
                        );
                        lemma_follows_transitive(
                            filter_outcome(rules, list, s, depth).state,
                            vector.state,
                            s,
                        );
                    },
                    _ => {},
                }
            },
            Err(_) => {},
        }
    }
}

proof fn lemma_filter_from_follows(
    rules: Rules,
    name: Seq<char>,
    items: Seq<Value>,
    from: nat,
    kept: Seq<Value>,
    s: State,
    depth: nat,
)
    ensures
        follows(filter_from_outcome(rules, name, items, from, kept, s, depth).state, s),
    decreases depth, 1nat, items.len() - from,
{
    if from < items.len() {
        let call = literal_outcome(rules, call_form(name, items[from as int]), s, depth);
        lemma_literal_follows(rules, call_form(name, items[from as int]), s, depth);
        let next = if call.result == Ok::<Value, EvalError>(Value::Boolean(true)) {
            kept.push(items[from as int])
        } else {
            kept
        };
        if !(rules.cut_ends_filter && call.result == Err::<Value, EvalError>(
            EvalError::DepthExceeded,
        )) {
            lemma_filter_from_follows(rules, name, items, from + 1, next, call.state, depth);
            lemma_follows_transitive(
                filter_from_outcome(rules, name, items, from, kept, s, depth).state,
                call.state,
                s,
            );
        }
    }
}

/// The deleted values and the output only grow: whatever is evaluated, the
/// state after it holds every deleted value and every printed text of the
/// state before it, in their order.
pub proof fn law_evaluation_only_adds(rules: Rules, v: Value, s: State, depth: nat)
    ensures
        follows(literal_outcome(rules, v, s, depth).state, s),
{
    lemma_literal_follows(rules, v, s, depth);
}

/// The deleted values and the output only grow over the expressions of a
/// program.
pub proof fn law_program_only_adds(
    rules: Rules,
    program: Seq<Value>,
    output: Seq<Seq<char>>,
    depth: nat,
)
    ensures
        output.is_prefix_of(program_outcome(rules, program, output, depth).state.output),
{
    lemma_each_follows(
        rules,
        program,
        0,
        Seq::empty(),
        State { variables: Map::empty(), deleted: Seq::empty(), output: output },
        depth,
    );
}

/// A value that equals a deleted one is not evaluated: its evaluation fails
/// with `DeletedLiteralUse` and changes nothing.
pub proof fn law_deleted_value_is_refused(rules: Rules, v: Value, s: State, depth: nat)
    requires
        contains_value(s.deleted, v),
    ensures
        literal_outcome(rules, v, s, depth) == failed(EvalError::DeletedLiteralUse, s),
{
}

/// Once `delete` has had a value as an operand, a value that equals it is
/// refused in every state that follows: `delete` puts each operand, as it
/// is written, among the deleted values, and nothing takes it out again.
pub proof fn law_delete_is_for_good(
    rules: Rules,
    list: Seq<Value>,
    i: int,
    s: State,
    later: State,
    v: Value,
    depth: nat,
)
    requires
        0 < i < list.len(),
        value_eq(list[i], v),
        follows(later, delete_outcome(list, s).state),
    ensures
        delete_outcome(list, s).result == Ok::<Value, EvalError>(Value::Void),
        contains_value(delete_outcome(list, s).state.deleted, v),
        literal_outcome(rules, v, later, depth) == failed(EvalError::DeletedLiteralUse, later),
{
    let after = delete_outcome(list, s).state;
    assert(after.deleted[s.deleted.len() + i - 1] == list[i]);
    lemma_deleted_stays_deleted(later, after, v);
}

} // verus!
