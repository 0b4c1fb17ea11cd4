use liwb::error::EvalError;
use liwb::evaluator::DEFAULT_DEPTH;
use liwb::host::{Calculation, Host, MathFunction};
use liwb::lexer::{lexer, Token};
use liwb::literals::{Literal, MathOperators};
use liwb::parser::{parser, ParseError};

fn calculate(calculation: Calculation) -> u64 {
    let value = match calculation {
        Calculation::Arithmetic(op, left, right) => {
            let (left, right) = (f64::from_bits(left), f64::from_bits(right));
            match op {
                MathOperators::Add => left + right,
                MathOperators::Subtract => left - right,
                MathOperators::Multiply => left * right,
                MathOperators::Divide => left / right,
            }
        }
        Calculation::Remainder(left, right) => f64::from_bits(left) % f64::from_bits(right),
        Calculation::Function(function, operand) => {
            let operand = f64::from_bits(operand);
            match function {
                MathFunction::Sqrt => operand.sqrt(),
                MathFunction::Sin => operand.sin(),
                MathFunction::Cos => operand.cos(),
                MathFunction::Tan => operand.tan(),
                MathFunction::Abs => operand.abs(),
                MathFunction::Log10 => operand.log10(),
                MathFunction::Floor => operand.floor(),
                MathFunction::Ceil => operand.ceil(),
                MathFunction::Round => operand.round(),
            }
        }
        Calculation::FromInteger(integer) => integer as f64,
    };
    value.to_bits()
}

fn truncate(bits: u64) -> i64 {
    f64::from_bits(bits) as i64
}

fn render(bits: u64) -> String {
    f64::from_bits(bits).to_string()
}

fn read_number(text: String) -> Option<u64> {
    text.parse::<f64>().ok().map(f64::to_bits)
}

fn number(value: f64) -> Literal {
    Literal::Number(value.to_bits())
}

#[allow(dead_code)]
fn symbol(name: &str) -> Literal {
    Literal::Symbol(name.to_string())
}

fn string(text: &str) -> Literal {
    Literal::String(text.to_string())
}

fn lex(source: &str) -> Vec<Token> {
    lexer(source, &read_number)
}

fn parse(tokens: Vec<Token>) -> Result<Vec<Literal>, ParseError> {
    parser(&tokens)
}

fn eval_from_literals(literals: Vec<Literal>) -> Result<Vec<Literal>, EvalError> {
    let host = Host { calculate, truncate, render };
    let mut output: Vec<String> = Vec::new();
    liwb::evaluator::eval_from_literals(&literals, &mut output, DEFAULT_DEPTH, &host)
}

const AREA_OF_TRAPEZIUM: &str = "(define a 4)\n(define b 6)\n(define h 6)\n(* (/ (+ a b) 2) h)";

const CALCULATE_HYPOTENUSES: &str =
    "(define a 3)\n(define b 4)\n(sqrt (+ (* a a) (* b b)))";

const CALCULATE_QUADRATIC_FUNCTION: &str = "(define a 1)\n(define b 2)\n(define c -3)\n\
(define delta (- (* b b) (* 4 (* a c))))\n\
(/ (+ (- 0 b) (sqrt delta)) (* 2 a))\n\
(/ (- (- 0 b) (sqrt delta)) (* 2 a))";

const IF_STATEMENT: &str = "(define x 7)\n(if (> x 5) 10 0)\n(if (< x 5) 10 0)";

const GET_ELEMENT_OF_VECTOR: &str = "(define v [1 2 3])\n(nth v 0)";

const OUT_OF_BOUNDS_VECTOR_INDEX: &str = "(define v [1 2 3])\n(nth v 5)";

const FUNCTIONS: &str = "(fn negative-product [a b] (- 0 (* a b)))\n\
(fn name [] \"Name\")\n\
(fn zero [] 0)\n\
(fn ten-if-big [x] (if (> x 5) 10 0))\n\
(negative-product 14 10)\n(name)\n(zero)\n(ten-if-big 7)";

const FIBONNACI_FUNCTION: &str =
    "(fn fib [n] (if (< n 2) n (+ (fib (- n 1)) (fib (- n 2)))))\n(fib 4)";

const RELATIONAL_OPERATORS: &str = "(< 1 2)\n(> 1 2)\n(<= 2 2)\n(>= 1 2)";

const VECTORS: &str = "(define v [1 2 3 4 5])\n(nth v 4)\n(nth v 3)\n(nth v 9)\n(nth v 1)\n\
(join [1 3 5] [2 4 6])\n(range 1 10)";

const FIBONNACI_VECTOR: &str =
    "(fn fib [n] (if (< n 2) n (+ (fib (- n 1)) (fib (- n 2)))))\n(map fib (range 0 12))";

const INVALID_MAP: &str = "(define v [1 2 3])\n(map 5 v)";

#[test]
fn simple_arithemtic_operation() {
    let literals = parse(lex("(+ (* 5 (- 5 2)) (/ 12 3))")).unwrap();
    assert_eq!(eval_from_literals(literals).unwrap(), vec![number(19.0)]);
}

#[test]
fn multi_line_operation() {
    let literals = parse(lex("(+ 1 1)\n(+ 1 1)\n(+ 1 1)")).unwrap();
    assert_eq!(
        eval_from_literals(literals).unwrap(),
        vec![number(2.0), number(2.0), number(2.0),]
    );
}

#[test]
fn arithemtic_operation_with_multiple_arguments() {
    let literals = parse(lex("(+ 1 2 3 4 5 6 7 8 9 10)")).unwrap();
    assert_eq!(eval_from_literals(literals).unwrap(), vec![number(55.0),]);
    let literals = parse(lex("(* 1 2 3 4 5 6 7 8 9 10)")).unwrap();
    assert_eq!(eval_from_literals(literals).unwrap(), vec![number(3628800.0)]);
    let literals = parse(lex("(/ 1 2 3 4 5 6 7 8 9 10)")).unwrap();
    assert_eq!(
        eval_from_literals(literals).unwrap(),
        vec![number(2.7557319223985894e-7)]
    );
    let literals = parse(lex("(- 1 2 3 4 5 6 7 8 9 10)")).unwrap();
    assert_eq!(eval_from_literals(literals).unwrap(), vec![number(-53.0)]);
}

#[test]
#[should_panic]
fn addition_with_void_should_fail() {
    let literals = parse(lex("(+ 1 ())")).unwrap();
    let _ = eval_from_literals(literals).unwrap();
}

#[test]
fn addition_with_variable() {
    let literals = parse(lex("(define x 5)\n(+ 1 x)")).unwrap();
    assert_eq!(
        eval_from_literals(literals).unwrap(),
        vec![Literal::Void, number(6.0),]
    );
}

#[test]
fn equal_operator() {
    let literals = parse(lex("(define 5-is-equal-10 (= 5 10))\n(5-is-equal-10)")).unwrap();
    assert_eq!(
        eval_from_literals(literals).unwrap(),
        vec![Literal::Void, Literal::Boolean(false),]
    );
    let literals = parse(lex("(define 5-is-equal-5 (= 5 5))\n(5-is-equal-5)")).unwrap();
    assert_eq!(
        eval_from_literals(literals).unwrap(),
        vec![Literal::Void, Literal::Boolean(true),]
    );
}

#[test]
fn multi_variable_definition() {
    let literals = parse(lex("(define pi (/ 22 7))\n(define r 10)\n(* pi (* r r))")).unwrap();
    assert_eq!(
        eval_from_literals(literals).unwrap(),
        vec![Literal::Void, Literal::Void, number(314.2857142857143),]
    )
}

#[test]
fn area_of_trapezium() {
    let literals = parse(lex(AREA_OF_TRAPEZIUM)).unwrap();
    assert_eq!(
        eval_from_literals(literals).unwrap().pop().unwrap(),
        number(30.0),
    );
}

#[test]
fn calculate_hypotenuses() {
    let literals = parse(lex(CALCULATE_HYPOTENUSES)).unwrap();
    assert_eq!(
        eval_from_literals(literals).unwrap().pop().unwrap(),
        number(5.0),
    );
}

#[test]
fn calculate_quadratic_function() {
    let literals = parse(lex(CALCULATE_QUADRATIC_FUNCTION)).unwrap();
    assert_eq!(
        eval_from_literals(literals)
            .unwrap()
            .into_iter()
            .rev()
            .take(2)
            .rev()
            .collect::<Vec<_>>(),
        vec![number(1.0), number(-3.0),],
    );
}

#[test]
fn if_statement() {
    let literals = parse(lex(IF_STATEMENT)).unwrap();
    assert_eq!(
        eval_from_literals(literals)
            .unwrap()
            .into_iter()
            .rev()
            .take(2)
            .rev()
            .collect::<Vec<_>>(),
        vec![number(10.0), number(0.0)],
    );
}

#[test]
fn string_variable() {
    let literals = parse(lex("(define name \"Daniel\") (name)")).unwrap();
    assert_eq!(
        eval_from_literals(literals).unwrap(),
        vec![Literal::Void, string("Daniel")]
    );
}

#[test]
fn vector_variable() {
    let literals = parse(lex(
        r#"(define numbers [1 "two" 3 "four" (+ 4 1)]) (numbers)"#,
    ))
    .unwrap();
    assert_eq!(
        eval_from_literals(literals).unwrap(),
        vec![
            Literal::Void,
            Literal::Vector(vec![
                number(1.0),
                string("two"),
                number(3.0),
                string("four"),
                Literal::List(vec![
                    Literal::MathOperator(MathOperators::Add),
                    number(4.0),
                    number(1.0),
                ])
            ])
        ]
    );
}

#[test]
fn get_element_of_vector() {
    let literals = parse(lex(GET_ELEMENT_OF_VECTOR)).unwrap();
    assert_eq!(
        eval_from_literals(literals)
            .unwrap()
            .into_iter()
            .rev()
            .take(1)
            .collect::<Vec<_>>(),
        vec![number(1.0)],
    );
}

#[test]
fn out_of_bounds_vector_index() {
    let literals = parse(lex(OUT_OF_BOUNDS_VECTOR_INDEX)).unwrap();
    assert_eq!(
        eval_from_literals(literals)
            .unwrap()
            .into_iter()
            .rev()
            .take(1)
            .collect::<Vec<_>>(),
        vec![Literal::Void],
    );
}

#[test]
fn functions() {
    let literals = parse(lex(FUNCTIONS)).unwrap();
    assert_eq!(
        eval_from_literals(literals)
            .unwrap()
            .into_iter()
            .rev()
            .take(4)
            .rev()
            .collect::<Vec<_>>(),
        vec![number(-140.0), string("Name"), number(0.0), number(10.0),],
    );
}

#[test]
fn fibonnaci_function() {
    let literals = parse(lex(FIBONNACI_FUNCTION)).unwrap();
    assert_eq!(
        eval_from_literals(literals)
            .unwrap()
            .into_iter()
            .rev()
            .take(1)
            .collect::<Vec<_>>(),
        vec![number(3.0),],
    );
}

#[test]
fn relational_operators() {
    let literals = parse(lex(RELATIONAL_OPERATORS)).unwrap();
    assert_eq!(
        eval_from_literals(literals)
            .unwrap()
            .into_iter()
            .collect::<Vec<_>>(),
        vec![
            Literal::Boolean(true),
            Literal::Boolean(false),
            Literal::Boolean(true),
            Literal::Boolean(false),
        ],
    );
}

#[test]
fn vectors() {
    let literals = parse(lex(VECTORS)).unwrap();
    assert_eq!(
        eval_from_literals(literals)
            .unwrap()
            .into_iter()
            .rev()
            .take(6)
            .collect::<Vec<_>>(),
        vec![
            Literal::Vector((1..=10).map(|n| number(n as f64)).collect()),
            Literal::Vector(vec![
                number(1.0),
                number(3.0),
                number(5.0),
                Literal::Vector(vec![number(2.0), number(4.0), number(6.0),])
            ]),
            number(2.0),
            Literal::Void,
            number(4.0),
            number(5.0),
        ],
    );
}

#[test]
fn fibonnaci_vector() {
    let literals = parse(lex(FIBONNACI_VECTOR)).unwrap();
    assert_eq!(
        eval_from_literals(literals)
            .unwrap()
            .into_iter()
            .rev()
            .take(1)
            .collect::<Vec<_>>(),
        vec![Literal::Vector(vec![
            number(0.0),
            number(1.0),
            number(1.0),
            number(2.0),
            number(3.0),
            number(5.0),
            number(8.0),
            number(13.0),
            number(21.0),
            number(34.0),
            number(55.0),
            number(89.0),
            number(144.0)
        ])],
    );
}

#[test]
#[should_panic]
fn invalid_map() {
    let literals = parse(lex(INVALID_MAP)).unwrap();
    eval_from_literals(literals).unwrap();
}
