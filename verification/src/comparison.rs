//! Structural equality and the partial order on values.
//!
//! Numbers compare as IEEE-754 binary64 values do: a NaN is unequal to and
//! unordered with everything, and the two zeros are equal.

use std::cmp::Ordering;
use vstd::prelude::*;
use vstd::string::StrSliceExecFns;
use vstd::string::StringSliceAdditionalSpecFns;
use crate::literals::{
    Literal, MathOperators, Operator, Value, lemma_list_view, lemma_vector_view, models, texts,
};

verus! {

/// The outcome of comparing two ordered things.
#[derive(Debug, Clone, Copy, PartialEq, Eq, Structural)]
pub enum Order {
    Less,
    Equal,
    Greater,
}

/// The order of two integers.
pub open spec fn int_order(a: int, b: int) -> Order {
    if a < b {
        Order::Less
    } else if a == b {
        Order::Equal
    } else {
        Order::Greater
    }
}

/// The sign bit of a binary64 bit pattern.
pub open spec fn is_negative(bits: u64) -> bool {
    bits >= 0x8000_0000_0000_0000
}

/// A binary64 bit pattern without its sign bit.
pub open spec fn magnitude(bits: u64) -> int {
    if is_negative(bits) {
        bits - 0x8000_0000_0000_0000
    } else {
        bits as int
    }
}

/// Whether a binary64 bit pattern is a NaN: all exponent bits set and a
/// fraction that is not zero.
pub open spec fn is_nan(bits: u64) -> bool {
    magnitude(bits) > 0x7ff0_0000_0000_0000
}

/// An integer that orders the binary64 values other than NaN as the values
/// themselves are ordered. Both zeros have the key 0.
pub open spec fn number_key(bits: u64) -> int {
    if is_negative(bits) {
        -magnitude(bits)
    } else {
        magnitude(bits)
    }
}

/// Equality of two binary64 values given by their bit patterns.
pub open spec fn number_eq(a: u64, b: u64) -> bool {
    !is_nan(a) && !is_nan(b) && number_key(a) == number_key(b)
}

/// The order of two binary64 values given by their bit patterns, if they are
/// ordered.
pub open spec fn number_order(a: u64, b: u64) -> Option<Order> {
    if is_nan(a) || is_nan(b) {
        None
    } else {
        Some(int_order(number_key(a), number_key(b)))
    }
}

fn magnitude_of(bits: u64) -> (m: u64)
    ensures
        m == magnitude(bits),
{
    if bits >= 0x8000_0000_0000_0000 {
        bits - 0x8000_0000_0000_0000
    } else {
        bits
    }
}

fn order_of(a: u64, b: u64) -> (o: Order)
    ensures
        o == int_order(a as int, b as int),
{
    if a < b {
        Order::Less
    } else if a == b {
        Order::Equal
    } else {
        Order::Greater
    }
}

/// Whether a binary64 value is a NaN.
pub fn is_not_a_number(bits: u64) -> (nan: bool)
    ensures
        nan == is_nan(bits),
{
    magnitude_of(bits) > 0x7ff0_0000_0000_0000
}

/// Compares two binary64 values for equality.
pub fn numbers_equal(a: u64, b: u64) -> (equal: bool)
    ensures
        equal == number_eq(a, b),
{
    let ma = magnitude_of(a);
    let mb = magnitude_of(b);
    if ma > 0x7ff0_0000_0000_0000 || mb > 0x7ff0_0000_0000_0000 {
        false
    } else if ma == 0 && mb == 0 {
        true
    } else {
        a == b
    }
}

/// Orders two binary64 values.
pub fn order_numbers(a: u64, b: u64) -> (order: Option<Order>)
    ensures
        order == number_order(a, b),
{
    let ma = magnitude_of(a);
    let mb = magnitude_of(b);
    if ma > 0x7ff0_0000_0000_0000 || mb > 0x7ff0_0000_0000_0000 {
        return None;
    }
    let a_negative = a >= 0x8000_0000_0000_0000;
    let b_negative = b >= 0x8000_0000_0000_0000;
    if a_negative && b_negative {
        Some(order_of(mb, ma))
    } else if a_negative {
        if ma == 0 && mb == 0 {
            Some(Order::Equal)
        } else {
            Some(Order::Less)
        }
    } else if b_negative {
        if ma == 0 && mb == 0 {
            Some(Order::Equal)
        } else {
            Some(Order::Greater)
        }
    } else {
        Some(order_of(ma, mb))
    }
}

/// The lexicographic order of two texts from position `from` on, character
/// by character, by code point.
pub open spec fn text_order(a: Seq<char>, b: Seq<char>, from: nat) -> Order
    decreases a.len() - from,
{
    if from >= a.len() || from >= b.len() {
        int_order(a.len() as int, b.len() as int)
    } else if a[from as int] == b[from as int] {
        text_order(a, b, from + 1)
    } else {
        int_order(a[from as int] as int, b[from as int] as int)
    }
}

/// Orders two texts.
pub fn order_texts(a: &str, b: &str) -> (order: Order)
    ensures
        order == text_order(a@, b@, 0),
{
    let a_len = a.unicode_len();
    let b_len = b.unicode_len();
    let mut i: usize = 0;
    while i < a_len && i < b_len
        invariant
            a_len == a@.len(),
            b_len == b@.len(),
            i <= a_len,
            i <= b_len,
            text_order(a@, b@, i as nat) == text_order(a@, b@, 0),
        decreases a_len - i,
    {
        let ca = a.get_char(i);
        let cb = b.get_char(i);
        if ca < cb {
            return Order::Less;
        }
        if ca > cb {
            return Order::Greater;
        }
        i += 1;
    }
    order_of(a_len as u64, b_len as u64)
}

/// Whether two texts hold the same characters.
pub fn same_text(a: &str, b: &str) -> (same: bool)
    ensures
        same == (a@ == b@),
{
    let a_bytes = a.as_bytes();
    let b_bytes = b.as_bytes();
    if a_bytes.len() != b_bytes.len() {
        return false;
    }
    let mut i: usize = 0;
    while i < a_bytes.len()
        invariant
            a_bytes@ == a.spec_bytes(),
            b_bytes@ == b.spec_bytes(),
            a_bytes@.len() == b_bytes@.len(),
            i <= a_bytes@.len(),
            forall|j: int| 0 <= j < i ==> a_bytes@[j] == b_bytes@[j],
        decreases a_bytes.len() - i,
    {
        if a_bytes[i] != b_bytes[i] {
            return false;
        }
        i += 1;
    }
    proof {
        assert(a_bytes@ =~= b_bytes@);
        vstd::utf8::encode_utf8_decode_utf8(a@);
        vstd::utf8::encode_utf8_decode_utf8(b@);
    }
    true
}

/// The position of a value's kind among the kinds; values of different kinds
/// are ordered by it.
pub open spec fn kind_rank(v: Value) -> int {
    match v {
        Value::Void => 0,
        Value::List(_) => 1,
        Value::Vector(_) => 2,
        Value::Number(_) => 3,
        Value::Symbol(_) => 4,
        Value::String(_) => 5,
        Value::MathOperator(_) => 6,
        Value::Boolean(_) => 7,
        Value::BinaryOperator(_) => 8,
        Value::If => 9,
        Value::Function { .. } => 10,
    }
}

pub open spec fn math_operator_rank(op: MathOperators) -> int {
    match op {
        MathOperators::Add => 0,
        MathOperators::Subtract => 1,
        MathOperators::Multiply => 2,
        MathOperators::Divide => 3,
    }
}

pub open spec fn operator_rank(op: Operator) -> int {
    match op {
        Operator::Equal => 0,
        Operator::LessThan => 1,
        Operator::BiggerThan => 2,
        Operator::LessOrEqualThan => 3,
        Operator::BiggerOrEqualThan => 4,
        Operator::NotEqual => 5,
    }
}

pub open spec fn bool_rank(b: bool) -> int {
    if b {
        1
    } else {
        0
    }
}

/// Structural equality: two values are equal when they are of one kind and
/// their contents are equal, numbers as binary64 values.
pub open spec fn value_eq(a: Value, b: Value) -> bool
    decreases a,
{
    match (a, b) {
        (Value::Void, Value::Void) => true,
        (Value::List(x), Value::List(y)) => items_eq(x, y),
        (Value::Vector(x), Value::Vector(y)) => items_eq(x, y),
        (Value::Number(x), Value::Number(y)) => number_eq(x, y),
        (Value::Symbol(x), Value::Symbol(y)) => x == y,
        (Value::String(x), Value::String(y)) => x == y,
        (Value::MathOperator(x), Value::MathOperator(y)) => x == y,
        (Value::Boolean(x), Value::Boolean(y)) => x == y,
        (Value::BinaryOperator(x), Value::BinaryOperator(y)) => x == y,
        (Value::If, Value::If) => true,
        (
            Value::Function { name: name_a, args: args_a, body: body_a },
            Value::Function { name: name_b, args: args_b, body: body_b },
        ) => name_a == name_b && args_a == args_b && value_eq(*body_a, *body_b),
        _ => false,
    }
}

/// Equality of two sequences of values: of one length, and equal item by
/// item.
pub open spec fn items_eq(a: Seq<Value>, b: Seq<Value>) -> bool
    decreases a,
{
    a.len() == b.len() && forall|i: int| 0 <= i < a.len() ==> value_eq(a[i], #[trigger] b[i])
}

/// Whether `v` equals some item of `items`.
pub open spec fn contains_value(items: Seq<Value>, v: Value) -> bool {
    exists|i: int| 0 <= i < items.len() && value_eq(#[trigger] items[i], v)
}

/// The lexicographic order of two sequences of texts from position `from` on.
pub open spec fn texts_order(a: Seq<Seq<char>>, b: Seq<Seq<char>>, from: nat) -> Order
    decreases a.len() - from,
{
    if from >= a.len() || from >= b.len() {
        int_order(a.len() as int, b.len() as int)
    } else {
        match text_order(a[from as int], b[from as int], 0) {
            Order::Equal => texts_order(a, b, from + 1),
            other => other,
        }
    }
}

/// The partial order on values. Values of different kinds are ordered by
/// kind; values of one kind by their contents, sequences lexicographically.
/// Two values are unordered where the first numbers that decide are.
pub open spec fn value_order(a: Value, b: Value) -> Option<Order>
    decreases a, 0nat,
{
    if kind_rank(a) != kind_rank(b) {
        Some(int_order(kind_rank(a), kind_rank(b)))
    } else {
        match (a, b) {
            (Value::List(x), Value::List(y)) => items_order(x, y, 0),
            (Value::Vector(x), Value::Vector(y)) => items_order(x, y, 0),
            (Value::Number(x), Value::Number(y)) => number_order(x, y),
            (Value::Symbol(x), Value::Symbol(y)) => Some(text_order(x, y, 0)),
            (Value::String(x), Value::String(y)) => Some(text_order(x, y, 0)),
            (Value::MathOperator(x), Value::MathOperator(y)) => Some(
                int_order(math_operator_rank(x), math_operator_rank(y)),
            ),
            (Value::Boolean(x), Value::Boolean(y)) => Some(int_order(bool_rank(x), bool_rank(y))),
            (Value::BinaryOperator(x), Value::BinaryOperator(y)) => Some(
                int_order(operator_rank(x), operator_rank(y)),
            ),
            (
                Value::Function { name: name_a, args: args_a, body: body_a },
                Value::Function { name: name_b, args: args_b, body: body_b },
            ) => match text_order(name_a, name_b, 0) {
                Order::Equal => match texts_order(args_a, args_b, 0) {
                    Order::Equal => value_order(*body_a, *body_b),
                    other => Some(other),
                },
                other => Some(other),
            },
            _ => Some(Order::Equal),
        }
    }
}

/// The lexicographic order of two sequences of values from position `from`
/// on.
pub open spec fn items_order(a: Seq<Value>, b: Seq<Value>, from: nat) -> Option<Order>
    decreases a, a.len() - from,
{
    if from >= a.len() || from >= b.len() {
        Some(int_order(a.len() as int, b.len() as int))
    } else {
        match value_order(a[from as int], b[from as int]) {
            Some(Order::Equal) => items_order(a, b, from + 1),
            other => other,
        }
    }
}

fn math_operator_rank_of(op: MathOperators) -> (r: u64)
    ensures
        r == math_operator_rank(op),
{
    match op {
        MathOperators::Add => 0,
        MathOperators::Subtract => 1,
        MathOperators::Multiply => 2,
        MathOperators::Divide => 3,
    }
}

fn operator_rank_of(op: Operator) -> (r: u64)
    ensures
        r == operator_rank(op),
{
    match op {
        Operator::Equal => 0,
        Operator::LessThan => 1,
        Operator::BiggerThan => 2,
        Operator::LessOrEqualThan => 3,
        Operator::BiggerOrEqualThan => 4,
        Operator::NotEqual => 5,
    }
}

fn kind_rank_of(literal: &Literal) -> (r: u64)
    ensures
        r == kind_rank(literal@),
{
    match literal {
        Literal::Void => 0,
        Literal::List(_) => 1,
        Literal::Vector(_) => 2,
        Literal::Number(_) => 3,
        Literal::Symbol(_) => 4,
        Literal::String(_) => 5,
        Literal::MathOperator(_) => 6,
        Literal::Boolean(_) => 7,
        Literal::BinaryOperator(_) => 8,
        Literal::If => 9,
        Literal::Function { .. } => 10,
    }
}

/// Whether two vectors of strings hold the same texts.
pub fn texts_equal(a: &Vec<String>, b: &Vec<String>) -> (equal: bool)
    ensures
        equal == (texts(a@) == texts(b@)),
{
    if a.len() != b.len() {
        assert(texts(a@).len() != texts(b@).len());
        return false;
    }
    let mut i: usize = 0;
    while i < a.len()
        invariant
            a.len() == b.len(),
            i <= a.len(),
            forall|j: int| 0 <= j < i ==> a@[j]@ == b@[j]@,
        decreases a.len() - i,
    {
        if !(a[i] == b[i]) {
            assert(texts(a@)[i as int] != texts(b@)[i as int]);
            return false;
        }
        i += 1;
    }
    assert(texts(a@) =~= texts(b@));
    true
}

/// Whether two vectors of literals are equal item by item.
pub fn items_equal(a: &Vec<Literal>, b: &Vec<Literal>) -> (equal: bool)
    ensures
        equal == items_eq(models(a@), models(b@)),
    decreases a,
{
    if a.len() != b.len() {
        return false;
    }
    let mut i: usize = 0;
    while i < a.len()
        invariant
            a.len() == b.len(),
            i <= a.len(),
            forall|j: int| 0 <= j < i ==> value_eq(models(a@)[j], #[trigger] models(b@)[j]),
        decreases a.len() - i,
    {
        let same = literals_equal(&a[i], &b[i]);
        assert(models(a@)[i as int] == a@[i as int]@);
        assert(models(b@)[i as int] == b@[i as int]@);
        if !same {
            return false;
        }
        i += 1;
    }
    true
}

/// Structural equality of two literals.
pub fn literals_equal(a: &Literal, b: &Literal) -> (equal: bool)
    ensures
        equal == value_eq(a@, b@),
    decreases a,
{
    match a {
        Literal::Void => match b {
            Literal::Void => true,
            _ => false,
        },
        Literal::List(x) => match b {
            Literal::List(y) => {
                let equal = items_equal(x, y);
                proof {
                    lemma_list_view(*x);
                    lemma_list_view(*y);
                }
                equal
            },
            _ => false,
        },
        Literal::Vector(x) => match b {
            Literal::Vector(y) => {
                let equal = items_equal(x, y);
                proof {
                    lemma_vector_view(*x);
                    lemma_vector_view(*y);
                }
                equal
            },
            _ => false,
        },
        Literal::Number(x) => match b {
            Literal::Number(y) => numbers_equal(*x, *y),
            _ => false,
        },
        Literal::Symbol(x) => match b {
            Literal::Symbol(y) => *x == *y,
            _ => false,
        },
        Literal::String(x) => match b {
            Literal::String(y) => *x == *y,
            _ => false,
        },
        Literal::MathOperator(x) => match b {
            Literal::MathOperator(y) => *x == *y,
            _ => false,
        },
        Literal::Boolean(x) => match b {
            Literal::Boolean(y) => *x == *y,
            _ => false,
        },
        Literal::BinaryOperator(x) => match b {
            Literal::BinaryOperator(y) => *x == *y,
            _ => false,
        },
        Literal::If => match b {
            Literal::If => true,
            _ => false,
        },
        Literal::Function { name: name_a, args: args_a, body: body_a } => match b {
            Literal::Function { name: name_b, args: args_b, body: body_b } => {
                *name_a == *name_b && texts_equal(args_a, args_b) && literals_equal(body_a, body_b)
            },
            _ => false,
        },
    }
}

/// Orders two vectors of strings lexicographically.
pub fn order_text_lists(a: &Vec<String>, b: &Vec<String>) -> (order: Order)
    ensures
        order == texts_order(texts(a@), texts(b@), 0),
{
    let mut i: usize = 0;
    while i < a.len() && i < b.len()
        invariant
            i <= a.len(),
            i <= b.len(),
            texts_order(texts(a@), texts(b@), i as nat) == texts_order(texts(a@), texts(b@), 0),
        decreases a.len() - i,
    {
        let step = order_texts(a[i].as_str(), b[i].as_str());
        match step {
            Order::Equal => {},
            _ => {
                return step;
            },
        }
        i += 1;
    }
    order_of(a.len() as u64, b.len() as u64)
}

/// Orders two vectors of literals lexicographically.
pub fn order_items(a: &Vec<Literal>, b: &Vec<Literal>) -> (order: Option<Order>)
    ensures
        order == items_order(models(a@), models(b@), 0),
    decreases a, 0nat,
{
    let mut i: usize = 0;
    while i < a.len() && i < b.len()
        invariant
            i <= a.len(),
            i <= b.len(),
            items_order(models(a@), models(b@), i as nat) == items_order(
                models(a@),
                models(b@),
                0,
            ),
        decreases a.len() - i,
    {
        let step = order_literals(&a[i], &b[i]);
        assert(models(a@)[i as int] == a@[i as int]@);
        assert(models(b@)[i as int] == b@[i as int]@);
        match step {
            Some(Order::Equal) => {},
            _ => {
                return step;
            },
        }
        i += 1;
    }
    Some(order_of(a.len() as u64, b.len() as u64))
}

/// Orders two literals.
pub fn order_literals(a: &Literal, b: &Literal) -> (order: Option<Order>)
    ensures
        order == value_order(a@, b@),
    decreases a, 1nat,
{
    let rank_a = kind_rank_of(a);
    let rank_b = kind_rank_of(b);
    if rank_a != rank_b {
        return Some(order_of(rank_a, rank_b));
    }
    match a {
        Literal::List(x) => match b {
            Literal::List(y) => {
                proof {
                    lemma_list_view(*x);
                    lemma_list_view(*y);
                }
                order_items(x, y)
            },
            _ => Some(Order::Equal),
        },
        Literal::Vector(x) => match b {
            Literal::Vector(y) => {
                proof {
                    lemma_vector_view(*x);
                    lemma_vector_view(*y);
                }
                order_items(x, y)
            },
            _ => Some(Order::Equal),
        },
        Literal::Number(x) => match b {
            Literal::Number(y) => order_numbers(*x, *y),
            _ => Some(Order::Equal),
        },
        Literal::Symbol(x) => match b {
            Literal::Symbol(y) => Some(order_texts(x.as_str(), y.as_str())),
            _ => Some(Order::Equal),
        },
        Literal::String(x) => match b {
            Literal::String(y) => Some(order_texts(x.as_str(), y.as_str())),
            _ => Some(Order::Equal),
        },
        Literal::MathOperator(x) => match b {
            Literal::MathOperator(y) => Some(
                order_of(math_operator_rank_of(*x), math_operator_rank_of(*y)),
            ),
            _ => Some(Order::Equal),
        },
        Literal::Boolean(x) => match b {
            Literal::Boolean(y) => Some(
                order_of(if *x { 1 } else { 0 }, if *y { 1 } else { 0 }),
            ),
            _ => Some(Order::Equal),
        },
        Literal::BinaryOperator(x) => match b {
            Literal::BinaryOperator(y) => Some(
                order_of(operator_rank_of(*x), operator_rank_of(*y)),
            ),
            _ => Some(Order::Equal),
        },
        Literal::Function { name: name_a, args: args_a, body: body_a } => match b {
            Literal::Function { name: name_b, args: args_b, body: body_b } => {
                match order_texts(name_a.as_str(), name_b.as_str()) {
                    Order::Equal => match order_text_lists(args_a, args_b) {
                        Order::Equal => order_literals(body_a, body_b),
                        other => Some(other),
                    },
                    other => Some(other),
                }
            },
            _ => Some(Order::Equal),
        },
        _ => Some(Order::Equal),
    }
}

impl PartialEq for Literal {
    fn eq(&self, other: &Self) -> (equal: bool) {
        literals_equal(self, other)
    }
}

impl vstd::std_specs::cmp::PartialEqSpecImpl for Literal {
    open spec fn obeys_eq_spec() -> bool {
        true
    }

    open spec fn eq_spec(&self, other: &Self) -> bool {
        value_eq(self@, other@)
    }
}

impl PartialOrd for Literal {
    fn partial_cmp(&self, other: &Self) -> (order: Option<Ordering>) {
        match order_literals(self, other) {
            Some(Order::Less) => Some(Ordering::Less),
            Some(Order::Equal) => Some(Ordering::Equal),
            Some(Order::Greater) => Some(Ordering::Greater),
            None => None,
        }
    }
}

impl vstd::std_specs::cmp::PartialOrdSpecImpl for Literal {
    open spec fn obeys_partial_cmp_spec() -> bool {
        true
    }

    open spec fn partial_cmp_spec(&self, other: &Self) -> Option<Ordering> {
        match value_order(self@, other@) {
            Some(Order::Less) => Some(Ordering::Less),
            Some(Order::Equal) => Some(Ordering::Equal),
            Some(Order::Greater) => Some(Ordering::Greater),
            None => None,
        }
    }
}

} // verus!
