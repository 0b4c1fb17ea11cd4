//! Laws of the single forms: arithmetic, `if`, `nth`, `range`, `map` and
//! `filter`.

use vstd::prelude::*;
use crate::comparison::{contains_value, is_nan, is_negative, magnitude};
use crate::error::EvalError;
use crate::host::{Calculation, MathFunction, Numbers};
use crate::literals::{MathOperators, Value};
use crate::semantics::{
    Rules, State, applied_function, call_form, done, filter_from_outcome, filter_outcome,
    fold_outcome, if_outcome, index_of, integers, item_at, literal_outcome, map_from_outcome,
    map_outcome, math_outcome, nth_outcome,
};

verus! {

/// The operands of an arithmetic form up to position `upto`, which are
/// numbers, combined from the left: the first with the second, what that
/// gives with the third, and so on.
pub open spec fn folded_from_the_left(
    numbers: Numbers,
    op: MathOperators,
    list: Seq<Value>,
    upto: nat,
) -> u64
    decreases upto,
{
    if upto <= 1 {
        list[1]->Number_0
    } else {
        (numbers.calculate)(
            Calculation::Arithmetic(
                op,
                folded_from_the_left(numbers, op, list, (upto - 1) as nat),
                list[upto as int]->Number_0,
            ),
        )
    }
}

proof fn lemma_fold_goes_on_from_the_left(
    rules: Rules,
    op: MathOperators,
    list: Seq<Value>,
    from: nat,
    s: State,
    depth: nat,
)
    requires
        2 <= from <= list.len(),
        list[0] == Value::MathOperator(op),
        forall|i: int|
            1 <= i < list.len() ==> (#[trigger] list[i]) is Number && !contains_value(
                s.deleted,
                list[i],
            ),
    ensures
        fold_outcome(
            rules,
            op,
            list,
            from,
            folded_from_the_left(rules.numbers, op, list, (from - 1) as nat),
            s,
            depth,
        ) == done(
            Value::Number(folded_from_the_left(rules.numbers, op, list, (list.len() - 1) as nat)),
            s,
        ),
    decreases list.len() - from,
{
    if from < list.len() {
        let operand = list[from as int];
        assert(operand is Number);
        assert(literal_outcome(rules, operand, s, depth) == done(operand, s));
        lemma_fold_goes_on_from_the_left(rules, op, list, from + 1, s, depth);
        assert(folded_from_the_left(rules.numbers, op, list, from) == (rules.numbers.calculate)(
            Calculation::Arithmetic(
                op,
                folded_from_the_left(rules.numbers, op, list, (from - 1) as nat),
                operand->Number_0,
            ),
        ));
    }
}

/// Arithmetic folds from the left: on operands that are numbers, none of
/// them deleted, the result is the first operand combined with the second,
/// the result of that with the third, and so on to the last. Nothing is
/// regrouped.
pub proof fn law_arithmetic_folds_from_the_left(
    rules: Rules,
    op: MathOperators,
    list: Seq<Value>,
    s: State,
    depth: nat,
)
    requires
        list.len() >= 2,
        list[0] == Value::MathOperator(op),
        forall|i: int|
            1 <= i < list.len() ==> (#[trigger] list[i]) is Number && !contains_value(
                s.deleted,
                list[i],
            ),
    ensures
        math_outcome(rules, list, s, depth) == done(
            Value::Number(folded_from_the_left(rules.numbers, op, list, (list.len() - 1) as nat)),
            s,
        ),
{
    assert(list[1] is Number);
    assert(literal_outcome(rules, list[1], s, depth) == done(list[1], s));
    lemma_fold_goes_on_from_the_left(rules, op, list, 2, s, depth);
}

/// `if` evaluates one branch only: where the condition holds, the third
/// operand has no part in the outcome, and where it does not hold, the
/// second has none.
pub proof fn law_if_evaluates_one_branch(
    rules: Rules,
    list: Seq<Value>,
    other: Value,
    s: State,
    depth: nat,
)
    requires
        list.len() == 4,
    ensures
        literal_outcome(rules, list[1], s, depth).result == Ok::<Value, EvalError>(
            Value::Boolean(true),
        ) ==> if_outcome(rules, list.update(3, other), s, depth) == if_outcome(
            rules,
            list,
            s,
            depth,
        ),
        literal_outcome(rules, list[1], s, depth).result == Ok::<Value, EvalError>(
            Value::Boolean(false),
        ) ==> if_outcome(rules, list.update(2, other), s, depth) == if_outcome(
            rules,
            list,
            s,
            depth,
        ),
{
}

/// `nth` does not fail on an index outside the vector: where the vector is
/// a vector and the index a number, the result is the item at the index,
/// and `Void` where there is none.
pub proof fn law_nth_out_of_range_is_void(rules: Rules, list: Seq<Value>, s: State, depth: nat)
    requires
        list.len() == 3,
        literal_outcome(rules, list[1], s, depth).result is Ok,
        literal_outcome(rules, list[1], s, depth).result->Ok_0 is Vector,
        literal_outcome(
            rules,
            list[2],
            literal_outcome(rules, list[1], s, depth).state,
            depth,
        ).result is Ok,
        literal_outcome(
            rules,
            list[2],
            literal_outcome(rules, list[1], s, depth).state,
            depth,
        ).result->Ok_0 is Number,
    ensures
        ({
            let vector = literal_outcome(rules, list[1], s, depth);
            let index = literal_outcome(rules, list[2], vector.state, depth);
            let at = index_of(rules.numbers, index.result->Ok_0->Number_0);
            let items = vector.result->Ok_0->Vector_0;
            nth_outcome(rules, list, s, depth).result == Ok::<Value, EvalError>(
                if at is Some && at->Some_0 < items.len() {
                    items[at->Some_0]
                } else {
                    Value::Void
                },
            )
        }),
{
}

/// `nth` takes no item for an index that is a NaN or rounds to less than
/// zero: such an index gives no position, whatever the host makes of it,
/// and a position that a number gives is never less than zero.
pub proof fn law_nth_index_is_not_negative(numbers: Numbers, items: Seq<Value>, bits: u64)
    ensures
        is_nan(bits) ==> item_at(numbers, items, bits) == Value::Void,
        ({
            let rounded = (numbers.calculate)(Calculation::Function(MathFunction::Round, bits));
            is_nan(rounded) || (is_negative(rounded) && magnitude(rounded) != 0) ==> item_at(
                numbers,
                items,
                bits,
            ) == Value::Void
        }),
        index_of(numbers, bits) is Some ==> index_of(numbers, bits)->Some_0 >= 0,
{
}

/// The numbers of a range are those of the integers from its start to its
/// end in ascending order, and none where the start is greater than the
/// end.
pub proof fn law_range_is_inclusive(numbers: Numbers, start: i64, end: i64)
    ensures
        start > end ==> integers(numbers, start, end) == Seq::<Value>::empty(),
        start <= end ==> integers(numbers, start, end).len() == end - start + 1,
        forall|k: int|
            0 <= k < integers(numbers, start, end).len() ==> #[trigger] integers(
                numbers,
                start,
                end,
            )[k] == Value::Number(
                (numbers.calculate)(Calculation::FromInteger((start + k) as i64)),
            ),
{
    if start > end {
        assert(integers(numbers, start, end) =~= Seq::<Value>::empty());
    }
}

/// The number of calls that give `Void` when `map` goes through the items
/// from position `from` on, up to the first call that fails.
pub open spec fn void_calls(
    rules: Rules,
    name: Seq<char>,
    items: Seq<Value>,
    from: nat,
    s: State,
    depth: nat,
) -> nat
    decreases items.len() - from,
{
    if from >= items.len() {
        0
    } else {
        let call = literal_outcome(rules, call_form(name, items[from as int]), s, depth);
        match call.result {
            Ok(Value::Void) => 1 + void_calls(rules, name, items, from + 1, call.state, depth),
            Ok(_) => void_calls(rules, name, items, from + 1, call.state, depth),
            Err(_) => 0,
        }
    }
}

proof fn lemma_map_counts(
    rules: Rules,
    name: Seq<char>,
    items: Seq<Value>,
    from: nat,
    collected: Seq<Value>,
    s: State,
    depth: nat,
)
    requires
        from <= items.len(),
        map_from_outcome(rules, name, items, from, collected, s, depth).result is Ok,
    ensures
        map_from_outcome(rules, name, items, from, collected, s, depth).result->Ok_0 is Vector,
        map_from_outcome(
            rules,
            name,
            items,
            from,
            collected,
            s,
            depth,
        ).result->Ok_0->Vector_0.len() + void_calls(rules, name, items, from, s, depth)
            == collected.len() + items.len() - from,
    decreases items.len() - from,
{
    if from < items.len() {
        let call = literal_outcome(rules, call_form(name, items[from as int]), s, depth);
        match call.result {
            Ok(Value::Void) => {
                lemma_map_counts(rules, name, items, from + 1, collected, call.state, depth);
            },
            Ok(v) => {
                lemma_map_counts(
                    rules,
                    name,
                    items,
                    from + 1,
                    collected.push(v),
                    call.state,
                    depth,
                );
            },
            Err(_) => {},
        }
    }
}

/// `map` drops the `Void` results: where it succeeds, its result is a
/// vector that has as many items as the mapped vector, less one for each
/// call that gave `Void`. So it is strictly shorter as soon as one call
/// gave `Void`.
pub proof fn law_map_drops_void(rules: Rules, list: Seq<Value>, s: State, depth: nat)
    requires
        map_outcome(rules, list, s, depth).result is Ok,
    ensures
        list.len() == 3,
        applied_function(list, s.variables) is Ok,
        literal_outcome(rules, list[2], s, depth).result is Ok,
        literal_outcome(rules, list[2], s, depth).result->Ok_0 is Vector,
        map_outcome(rules, list, s, depth).result->Ok_0 is Vector,
        map_outcome(rules, list, s, depth).result->Ok_0->Vector_0.len() + void_calls(
            rules,
            applied_function(list, s.variables)->Ok_0,
            literal_outcome(rules, list[2], s, depth).result->Ok_0->Vector_0,
            0,
            literal_outcome(rules, list[2], s, depth).state,
            depth,
        ) == literal_outcome(rules, list[2], s, depth).result->Ok_0->Vector_0.len(),
{
    let vector = literal_outcome(rules, list[2], s, depth);
    lemma_map_counts(
        rules,
        applied_function(list, s.variables)->Ok_0,
        vector.result->Ok_0->Vector_0,
        0,
        Seq::empty(),
        vector.state,
        depth,
    );
}

/// What `filter` keeps of the items from position `from` on, after `kept`,
/// given for each item the outcome of its call: the items whose call gave
/// `true`.
pub open spec fn kept_items(
    rules: Rules,
    name: Seq<char>,
    items: Seq<Value>,
    from: nat,
    kept: Seq<Value>,
    s: State,
    depth: nat,
) -> Seq<Value>
    decreases items.len() - from,
{
    if from >= items.len() {
        kept
    } else {
        let call = literal_outcome(rules, call_form(name, items[from as int]), s, depth);
        kept_items(
            rules,
            name,
            items,
            from + 1,
            if call.result == Ok::<Value, EvalError>(Value::Boolean(true)) {
                kept.push(items[from as int])
            } else {
                kept
            },
            call.state,
            depth,
        )
    }
}

proof fn lemma_filter_keeps_items(
    rules: Rules,
    name: Seq<char>,
    items: Seq<Value>,
    from: nat,
    kept: Seq<Value>,
    s: State,
    depth: nat,
)
    requires
        !rules.cut_ends_filter,
        from <= items.len(),
        forall|k: int| 0 <= k < kept.len() ==> items.contains(#[trigger] kept[k]),
    ensures
        filter_from_outcome(rules, name, items, from, kept, s, depth).result == Ok::<
            Value,
            EvalError,
        >(Value::Vector(kept_items(rules, name, items, from, kept, s, depth))),
        kept_items(rules, name, items, from, kept, s, depth).len() <= kept.len() + items.len()
            - from,
        forall|k: int|
            0 <= k < kept_items(rules, name, items, from, kept, s, depth).len()
                ==> items.contains(
                #[trigger] kept_items(rules, name, items, from, kept, s, depth)[k],
            ),
    decreases items.len() - from,
{
    if from < items.len() {
        let call = literal_outcome(rules, call_form(name, items[from as int]), s, depth);
        let next = if call.result == Ok::<Value, EvalError>(Value::Boolean(true)) {
            kept.push(items[from as int])
        } else {
            kept
        };
        assert forall|k: int| 0 <= k < next.len() implies items.contains(#[trigger] next[k]) by {
            if k < kept.len() {
                assert(next[k] == kept[k]);
            } else {
                assert(next[k] == items[from as int]);
            }
        }
        lemma_filter_keeps_items(rules, name, items, from + 1, next, call.state, depth);
    }
}

/// `filter` does not fail on a call that fails, whatever the failure: where
/// its first operand names a function and its second gives a vector, the
/// result is a vector. It holds the items whose call gave `true`, items of
/// the filtered vector only, and no more of them than that one has.
pub proof fn law_filter_hides_failures(rules: Rules, list: Seq<Value>, s: State, depth: nat)
    requires
        !rules.cut_ends_filter,
        list.len() == 3,
        applied_function(list, s.variables) is Ok,
        literal_outcome(rules, list[2], s, depth).result is Ok,
        literal_outcome(rules, list[2], s, depth).result->Ok_0 is Vector,
    ensures
        ({
            let vector = literal_outcome(rules, list[2], s, depth);
            let items = vector.result->Ok_0->Vector_0;
            let all = kept_items(
                rules,
                applied_function(list, s.variables)->Ok_0,
                items,
                0,
                Seq::empty(),
                vector.state,
                depth,
            );
            &&& filter_outcome(rules, list, s, depth).result == Ok::<Value, EvalError>(
                Value::Vector(all),
            )
            &&& all.len() <= items.len()
            &&& forall|k: int| 0 <= k < all.len() ==> items.contains(#[trigger] all[k])
        }),
{
    let vector = literal_outcome(rules, list[2], s, depth);
    lemma_filter_keeps_items(
        rules,
        applied_function(list, s.variables)->Ok_0,
        vector.result->Ok_0->Vector_0,
        0,
        Seq::empty(),
        vector.state,
        depth,
    );
}

/// An item whose call fails is left out by `filter` as if the call had
/// given `false`, and the filtering goes on with the next item.
pub proof fn law_filter_leaves_out_a_failing_item(
    rules: Rules,
    name: Seq<char>,
    items: Seq<Value>,
    from: nat,
    kept: Seq<Value>,
    s: State,
    depth: nat,
)
    requires
        !rules.cut_ends_filter,
        from < items.len(),
        literal_outcome(rules, call_form(name, items[from as int]), s, depth).result is Err,
    ensures
        filter_from_outcome(rules, name, items, from, kept, s, depth) == filter_from_outcome(
            rules,
            name,
            items,
            from + 1,
            kept,
            literal_outcome(rules, call_form(name, items[from as int]), s, depth).state,
            depth,
        ),
        kept_items(rules, name, items, from, kept, s, depth) == kept_items(
            rules,
            name,
            items,
            from + 1,
            kept,
            literal_outcome(rules, call_form(name, items[from as int]), s, depth).state,
            depth,
        ),
{
}

} // verus!
