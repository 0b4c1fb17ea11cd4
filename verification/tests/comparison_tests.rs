use liwb::comparison::{
    literals_equal, numbers_equal, order_literals, order_numbers, order_texts, same_text, Order,
};
use liwb::literals::{Literal, MathOperators, Operator};
use std::cmp::Ordering;

/// The values of the language with `f64` numbers and the comparisons that
/// the compiler derives for them.
#[derive(Debug, Clone, PartialEq, PartialOrd)]
enum Derived {
    Void,
    List(Vec<Derived>),
    Vector(Vec<Derived>),
    Number(f64),
    Symbol(String),
    String(String),
    MathOperator(MathOperators),
    Boolean(bool),
    BinaryOperator(Operator),
    If,
    Function {
        name: String,
        args: Vec<String>,
        body: Box<Derived>,
    },
}

fn derived(literal: &Literal) -> Derived {
    match literal {
        Literal::Void => Derived::Void,
        Literal::List(items) => Derived::List(items.iter().map(derived).collect()),
        Literal::Vector(items) => Derived::Vector(items.iter().map(derived).collect()),
        Literal::Number(bits) => Derived::Number(f64::from_bits(*bits)),
        Literal::Symbol(name) => Derived::Symbol(name.clone()),
        Literal::String(text) => Derived::String(text.clone()),
        Literal::MathOperator(op) => Derived::MathOperator(*op),
        Literal::Boolean(b) => Derived::Boolean(*b),
        Literal::BinaryOperator(op) => Derived::BinaryOperator(*op),
        Literal::If => Derived::If,
        Literal::Function { name, args, body } => Derived::Function {
            name: name.clone(),
            args: args.clone(),
            body: Box::new(derived(body)),
        },
    }
}

fn order(ordering: Option<Ordering>) -> Option<Order> {
    ordering.map(|ordering| match ordering {
        Ordering::Less => Order::Less,
        Ordering::Equal => Order::Equal,
        Ordering::Greater => Order::Greater,
    })
}

fn numbers() -> Vec<f64> {
    vec![
        0.0,
        -0.0,
        1.0,
        -1.0,
        0.5,
        -0.5,
        2.0,
        1e300,
        -1e300,
        f64::MIN_POSITIVE,
        -f64::MIN_POSITIVE,
        5e-324,
        -5e-324,
        f64::MAX,
        f64::MIN,
        f64::EPSILON,
        f64::INFINITY,
        f64::NEG_INFINITY,
        f64::NAN,
        -f64::NAN,
        f64::from_bits(0x7ff0_0000_0000_0001),
        f64::from_bits(0xfff8_0000_0000_0000),
        f64::from_bits(0x7fff_ffff_ffff_ffff),
        3.0000000000000004,
        3.0,
    ]
}

fn texts() -> Vec<&'static str> {
    vec![
        "", "a", "ab", "abc", "abd", "b", "B", "é", "e", "z", "€", "\u{10348}", "a\u{10348}", "ÿ",
        "~",
    ]
}

fn number(value: f64) -> Literal {
    Literal::Number(value.to_bits())
}

fn string(text: &str) -> Literal {
    Literal::String(text.to_string())
}

fn symbol(text: &str) -> Literal {
    Literal::Symbol(text.to_string())
}

fn function(name: &str, args: &[&str], body: Literal) -> Literal {
    Literal::Function {
        name: name.to_string(),
        args: args.iter().map(|arg| arg.to_string()).collect(),
        body: Box::new(body),
    }
}

fn literals() -> Vec<Literal> {
    vec![
        Literal::Void,
        Literal::List(vec![]),
        Literal::List(vec![number(1.0)]),
        Literal::List(vec![number(1.0), number(2.0)]),
        Literal::List(vec![number(2.0)]),
        Literal::Vector(vec![]),
        Literal::Vector(vec![number(1.0)]),
        Literal::Vector(vec![number(1.0), number(f64::NAN)]),
        Literal::Vector(vec![number(1.0), number(0.0)]),
        Literal::Vector(vec![number(f64::NAN), number(0.0)]),
        Literal::Vector(vec![number(-0.0), string("a")]),
        Literal::Vector(vec![number(0.0), string("b")]),
        Literal::Vector(vec![Literal::Vector(vec![number(1.0)]), Literal::Void]),
        Literal::Vector(vec![Literal::Vector(vec![number(1.0)])]),
        number(0.0),
        number(-0.0),
        number(1.5),
        number(-1.5),
        number(f64::NAN),
        number(f64::INFINITY),
        symbol("a"),
        symbol("b"),
        string("a"),
        string("ab"),
        string("é"),
        Literal::MathOperator(MathOperators::Add),
        Literal::MathOperator(MathOperators::Subtract),
        Literal::MathOperator(MathOperators::Multiply),
        Literal::MathOperator(MathOperators::Divide),
        Literal::Boolean(false),
        Literal::Boolean(true),
        Literal::BinaryOperator(Operator::Equal),
        Literal::BinaryOperator(Operator::LessThan),
        Literal::BinaryOperator(Operator::BiggerThan),
        Literal::BinaryOperator(Operator::LessOrEqualThan),
        Literal::BinaryOperator(Operator::BiggerOrEqualThan),
        Literal::BinaryOperator(Operator::NotEqual),
        Literal::If,
        function("f", &[], Literal::Void),
        function("f", &["a"], Literal::Void),
        function("f", &["a"], number(1.0)),
        function("f", &["a"], number(f64::NAN)),
        function("f", &["a", "b"], number(0.0)),
        function("f", &["b"], number(0.0)),
        function("g", &[], number(0.0)),
    ]
}

#[test]
fn numbers_are_equal_as_floating_point_numbers_are() {
    for a in numbers() {
        for b in numbers() {
            assert_eq!(numbers_equal(a.to_bits(), b.to_bits()), a == b, "{a:?} == {b:?}");
        }
    }
}

#[test]
fn numbers_are_ordered_as_floating_point_numbers_are() {
    for a in numbers() {
        for b in numbers() {
            assert_eq!(
                order_numbers(a.to_bits(), b.to_bits()),
                order(a.partial_cmp(&b)),
                "{a:?} with {b:?}"
            );
        }
    }
}

#[test]
fn texts_are_ordered_as_strings_are() {
    for a in texts() {
        for b in texts() {
            assert_eq!(Some(order_texts(a, b)), order(Some(a.cmp(b))), "{a:?} with {b:?}");
            assert_eq!(same_text(a, b), a == b, "{a:?} == {b:?}");
        }
    }
}

#[test]
fn literals_are_equal_as_derived_equality_has_them() {
    for a in literals() {
        for b in literals() {
            assert_eq!(literals_equal(&a, &b), derived(&a) == derived(&b), "{a:?} == {b:?}");
            assert_eq!(a == b, derived(&a) == derived(&b), "{a:?} == {b:?}");
        }
    }
}

#[test]
fn literals_are_ordered_as_the_derived_order_has_them() {
    for a in literals() {
        for b in literals() {
            let expected = derived(&a).partial_cmp(&derived(&b));
            assert_eq!(order_literals(&a, &b), order(expected), "{a:?} with {b:?}");
            assert_eq!(a.partial_cmp(&b), expected, "{a:?} with {b:?}");
            assert_eq!(a < b, derived(&a) < derived(&b), "{a:?} < {b:?}");
            assert_eq!(a <= b, derived(&a) <= derived(&b), "{a:?} <= {b:?}");
            assert_eq!(a > b, derived(&a) > derived(&b), "{a:?} > {b:?}");
            assert_eq!(a >= b, derived(&a) >= derived(&b), "{a:?} >= {b:?}");
        }
    }
}

#[test]
fn a_copy_equals_what_it_was_copied_from() {
    for a in literals() {
        assert_eq!(format!("{:?}", a.clone()), format!("{:?}", a));
    }
}
