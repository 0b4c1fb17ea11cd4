//! The order on values is transitive.

use vstd::prelude::*;
use crate::comparison::{Order, items_order, kind_rank, text_order, texts_order, value_order};
use crate::literals::Value;

verus! {

/// What the order of a first and a third thing has to be, given the order
/// of the first and the second and that of the second and the third:
/// nothing follows where the one is `Less` and the other `Greater`.
pub open spec fn chained(first: Order, second: Order) -> Option<Order> {
    match (first, second) {
        (Order::Equal, other) => Some(other),
        (other, Order::Equal) => Some(other),
        (Order::Less, Order::Less) => Some(Order::Less),
        (Order::Greater, Order::Greater) => Some(Order::Greater),
        _ => None,
    }
}

proof fn lemma_text_order_chains(a: Seq<char>, b: Seq<char>, c: Seq<char>, from: nat)
    requires
        from <= a.len(),
        from <= b.len(),
        from <= c.len(),
        chained(text_order(a, b, from), text_order(b, c, from)) is Some,
    ensures
        Some(text_order(a, c, from)) == chained(text_order(a, b, from), text_order(b, c, from)),
    decreases a.len() - from,
{
    if from < a.len() && from < b.len() && from < c.len() {
        if a[from as int] == b[from as int] && b[from as int] == c[from as int] {
            lemma_text_order_chains(a, b, c, from + 1);
        }
    }
}

proof fn lemma_texts_order_chains(
    a: Seq<Seq<char>>,
    b: Seq<Seq<char>>,
    c: Seq<Seq<char>>,
    from: nat,
)
    requires
        from <= a.len(),
        from <= b.len(),
        from <= c.len(),
        chained(texts_order(a, b, from), texts_order(b, c, from)) is Some,
    ensures
        Some(texts_order(a, c, from)) == chained(texts_order(a, b, from), texts_order(b, c, from)),
    decreases a.len() - from,
{
    if from < a.len() && from < b.len() && from < c.len() {
        let x = text_order(a[from as int], b[from as int], 0);
        let y = text_order(b[from as int], c[from as int], 0);
        if chained(x, y) is Some {
            lemma_text_order_chains(a[from as int], b[from as int], c[from as int], 0);
        }
        if x == Order::Equal && y == Order::Equal {
            lemma_texts_order_chains(a, b, c, from + 1);
        }
    }
}

proof fn lemma_items_order_chain(a: Seq<Value>, b: Seq<Value>, c: Seq<Value>, from: nat)
    requires
        from <= a.len(),
        from <= b.len(),
        from <= c.len(),
        items_order(a, b, from) is Some,
        items_order(b, c, from) is Some,
        chained(items_order(a, b, from)->Some_0, items_order(b, c, from)->Some_0) is Some,
    ensures
        items_order(a, c, from) == chained(
            items_order(a, b, from)->Some_0,
            items_order(b, c, from)->Some_0,
        ),
    decreases a, a.len() - from,
{
    if from < a.len() && from < b.len() && from < c.len() {
        let x = value_order(a[from as int], b[from as int]);
        let y = value_order(b[from as int], c[from as int]);
        if x is Some && y is Some && chained(x->Some_0, y->Some_0) is Some {
            lemma_value_order_chains(a[from as int], b[from as int], c[from as int]);
        }
        if x == Some(Order::Equal) && y == Some(Order::Equal) {
            lemma_items_order_chain(a, b, c, from + 1);
        }
    }
}

proof fn lemma_value_order_chains(a: Value, b: Value, c: Value)
    requires
        value_order(a, b) is Some,
        value_order(b, c) is Some,
        chained(value_order(a, b)->Some_0, value_order(b, c)->Some_0) is Some,
    ensures
        value_order(a, c) == chained(value_order(a, b)->Some_0, value_order(b, c)->Some_0),
    decreases a, 0nat,
{
    if kind_rank(a) == kind_rank(b) && kind_rank(b) == kind_rank(c) {
        match (a, b, c) {
            (Value::List(x), Value::List(y), Value::List(z)) => {
                lemma_items_order_chain(x, y, z, 0);
            },
            (Value::Vector(x), Value::Vector(y), Value::Vector(z)) => {
                lemma_items_order_chain(x, y, z, 0);
            },
            (Value::Symbol(x), Value::Symbol(y), Value::Symbol(z)) => {
                lemma_text_order_chains(x, y, z, 0);
            },
            (Value::String(x), Value::String(y), Value::String(z)) => {
                lemma_text_order_chains(x, y, z, 0);
            },
            (
                Value::Function { name: name_a, args: args_a, body: body_a },
                Value::Function { name: name_b, args: args_b, body: body_b },
                Value::Function { name: name_c, args: args_c, body: body_c },
            ) => {
                let names_ab = text_order(name_a, name_b, 0);
                let names_bc = text_order(name_b, name_c, 0);
                if chained(names_ab, names_bc) is Some {
                    lemma_text_order_chains(name_a, name_b, name_c, 0);
                }
                if names_ab == Order::Equal && names_bc == Order::Equal {
                    let args_ab = texts_order(args_a, args_b, 0);
                    let args_bc = texts_order(args_b, args_c, 0);
                    if chained(args_ab, args_bc) is Some {
                        lemma_texts_order_chains(args_a, args_b, args_c, 0);
                    }
                    if args_ab == Order::Equal && args_bc == Order::Equal {
                        lemma_value_order_chains(*body_a, *body_b, *body_c);
                    }
                }
            },
            _ => {},
        }
    }
}

/// The order on values is transitive: where a first value is ordered with
/// a second and the second with a third, and the two orders do not point in
/// opposite directions, the first is ordered with the third, in the
/// direction that the two give. `Equal` gives way to the other order.
pub proof fn law_order_is_transitive(a: Value, b: Value, c: Value)
    requires
        value_order(a, b) is Some,
        value_order(b, c) is Some,
        chained(value_order(a, b)->Some_0, value_order(b, c)->Some_0) is Some,
    ensures
        value_order(a, c) == chained(value_order(a, b)->Some_0, value_order(b, c)->Some_0),
{
    lemma_value_order_chains(a, b, c);
}

} // verus!
