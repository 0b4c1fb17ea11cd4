use liwb::comparison::{order_literals, Order};
use liwb::environment::Variables;
use liwb::error::EvalError;
use liwb::evaluator::{eval_list, eval_literal, DEFAULT_DEPTH};
use liwb::functions::{define_function, eval_function};
use liwb::host::{Calculation, Host, MathFunction};
use liwb::lexer::{lexer, Token};
use liwb::literals::{Literal, MathOperators, Operator};
use liwb::math_functions::{eval_operator_with_double_argument, eval_operator_with_single_arg};
use liwb::parser::{parser, ParseError};
use liwb::text::unescape;
use liwb::vector_manipulation::eval_vector_operation;

fn calculate(calculation: Calculation) -> u64 {
    let value = match calculation {
        Calculation::Arithmetic(op, left, right) => {
            let (left, right) = (f64::from_bits(left), f64::from_bits(right));
            match op {
                MathOperators::Add => left + right,
                MathOperators::Subtract => left - right,
                MathOperators::Multiply => left * right,
                MathOperators::Divide => left / right,
            }
        }
        Calculation::Remainder(left, right) => f64::from_bits(left) % f64::from_bits(right),
        Calculation::Function(function, operand) => {
            let operand = f64::from_bits(operand);
            match function {
                MathFunction::Sqrt => operand.sqrt(),
                MathFunction::Sin => operand.sin(),
                MathFunction::Cos => operand.cos(),
                MathFunction::Tan => operand.tan(),
                MathFunction::Abs => operand.abs(),
                MathFunction::Log10 => operand.log10(),
                MathFunction::Floor => operand.floor(),
                MathFunction::Ceil => operand.ceil(),
                MathFunction::Round => operand.round(),
            }
        }
        Calculation::FromInteger(integer) => integer as f64,
    };
    value.to_bits()
}

fn truncate(bits: u64) -> i64 {
    f64::from_bits(bits) as i64
}

fn render(bits: u64) -> String {
    f64::from_bits(bits).to_string()
}

fn read_number(text: String) -> Option<u64> {
    text.parse::<f64>().ok().map(f64::to_bits)
}

fn number(value: f64) -> Literal {
    Literal::Number(value.to_bits())
}

fn symbol(name: &str) -> Literal {
    Literal::Symbol(name.to_string())
}

fn string(text: &str) -> Literal {
    Literal::String(text.to_string())
}

fn lex(source: &str) -> Vec<Token> {
    lexer(source, &read_number)
}

fn parse(tokens: Vec<Token>) -> Result<Vec<Literal>, ParseError> {
    parser(&tokens)
}

fn eval_from_literals(literals: Vec<Literal>) -> Result<Vec<Literal>, EvalError> {
    let host = Host { calculate, truncate, render };
    let mut output: Vec<String> = Vec::new();
    liwb::evaluator::eval_from_literals(&literals, &mut output, DEFAULT_DEPTH, &host)
}

fn run(source: &str) -> Result<Vec<Literal>, EvalError> {
    eval_from_literals(parse(lex(source)).unwrap())
}

fn run_with_output(source: &str) -> (Result<Vec<Literal>, EvalError>, Vec<String>) {
    let host = Host { calculate, truncate, render };
    let mut output: Vec<String> = Vec::new();
    let literals = parse(lex(source)).unwrap();
    let result = liwb::evaluator::eval_from_literals(&literals, &mut output, DEFAULT_DEPTH, &host);
    (result, output)
}

fn first_form(source: &str) -> Vec<Literal> {
    match parse(lex(source)).unwrap().remove(0) {
        Literal::List(items) => items,
        other => panic!("not a list: {:?}", other),
    }
}

fn last(source: &str) -> Literal {
    run(source).unwrap().pop().unwrap()
}

// Arithmetic.

#[test]
fn arithmetic_folds_from_the_left() {
    assert_eq!(last("(- 10 3 2)"), number(5.0));
    assert_eq!(last("(/ 64 4 2)"), number(8.0));
    assert_eq!(last("(- 1 2 3 4 5 6 7 8 9 10)"), number(-53.0));
    assert_eq!(last("(/ 1 2 3 4 5 6 7 8 9 10)"), number(2.7557319223985894e-7));
}

#[test]
fn an_operator_on_one_operand_gives_the_operand() {
    assert_eq!(last("(+ 7)"), number(7.0));
    assert_eq!(last("(/ 7)"), number(7.0));
}

#[test]
fn an_operator_without_operands_misses_an_operand() {
    assert_eq!(run("(+)"), Err(EvalError::MissingOperand));
}

#[test]
fn an_operand_that_is_no_number_is_a_type_mismatch() {
    assert_eq!(run("(+ 1 ())"), Err(EvalError::TypeMismatch));
    assert_eq!(run("(+ \"a\" 1)"), Err(EvalError::TypeMismatch));
    assert_eq!(run("(* 2 true)"), Err(EvalError::TypeMismatch));
}

#[test]
fn division_by_zero_is_no_error() {
    assert_eq!(last("(/ 1 0)"), number(f64::INFINITY));
    assert_eq!(last("(/ -1 0)"), number(f64::NEG_INFINITY));
    match last("(/ 0 0)") {
        Literal::Number(bits) => assert!(f64::from_bits(bits).is_nan()),
        other => panic!("not a number: {:?}", other),
    }
}

#[test]
fn the_functions_of_one_number() {
    assert_eq!(last("(sqrt 16)"), number(4.0));
    assert_eq!(last("(abs -3.5)"), number(3.5));
    assert_eq!(last("(floor 2.7)"), number(2.0));
    assert_eq!(last("(ceil 2.1)"), number(3.0));
    assert_eq!(last("(round 2.5)"), number(3.0));
    assert_eq!(last("(round -2.5)"), number(-3.0));
    assert_eq!(last("(log10 1000)"), number(1000f64.log10()));
    assert_eq!(last("(sin 0)"), number(0.0));
    assert_eq!(last("(cos 0)"), number(1.0));
    assert_eq!(last("(tan 0)"), number(0.0));
}

#[test]
fn a_function_of_one_number_needs_a_number() {
    assert_eq!(run("(sqrt)"), Err(EvalError::ArityMismatch));
    assert_eq!(run("(sqrt 4 9)"), Err(EvalError::ArityMismatch));
    assert_eq!(run("(sqrt \"x\")"), Err(EvalError::TypeMismatch));
    assert_eq!(run("(sqrt y)"), Err(EvalError::UnknownSymbol));
}

#[test]
fn a_name_that_is_no_function_of_one_number_is_an_unknown_operator() {
    let host = Host { calculate, truncate, render };
    let mut variables = Variables::new();
    let mut deleted = Vec::new();
    let mut output = Vec::new();
    let list = vec![symbol("cbrt"), number(8.0)];
    assert_eq!(
        eval_operator_with_single_arg(&list, &mut variables, &mut deleted, &mut output, 8, &host),
        Err(EvalError::UnknownOperator)
    );
    let list = vec![number(1.0), number(8.0)];
    assert_eq!(
        eval_operator_with_single_arg(&list, &mut variables, &mut deleted, &mut output, 8, &host),
        Err(EvalError::TypeMismatch)
    );
}

#[test]
fn the_remainder_has_the_sign_of_the_dividend() {
    assert_eq!(last("(mod 7 3)"), number(1.0));
    assert_eq!(last("(mod -7 3)"), number(-1.0));
    assert_eq!(last("(mod 7 -3)"), number(1.0));
    assert_eq!(last("(mod 7.5 2)"), number(1.5));
}

#[test]
fn the_remainder_needs_two_numbers() {
    assert_eq!(run("(mod)"), Err(EvalError::ArityMismatch));
    assert_eq!(run("(mod 1)"), Err(EvalError::ArityMismatch));
    assert_eq!(run("(mod 7 3 2)"), Err(EvalError::ArityMismatch));
    assert_eq!(run("(mod (undefined-symbol))"), Err(EvalError::ArityMismatch));
    assert_eq!(run("(mod 1 \"a\")"), Err(EvalError::TypeMismatch));
    assert_eq!(run("(mod true 1)"), Err(EvalError::TypeMismatch));
}

#[test]
fn a_name_that_is_no_function_of_two_numbers_is_an_unknown_operator() {
    let host = Host { calculate, truncate, render };
    let mut variables = Variables::new();
    let mut deleted = Vec::new();
    let mut output = Vec::new();
    let list = vec![symbol("pow"), number(2.0), number(3.0)];
    assert_eq!(
        eval_operator_with_double_argument(
            &list,
            &mut variables,
            &mut deleted,
            &mut output,
            8,
            &host
        ),
        Err(EvalError::UnknownOperator)
    );
}

// Relations.

#[test]
fn relations_on_numbers() {
    assert_eq!(last("(= 5 5)"), Literal::Boolean(true));
    assert_eq!(last("(= 5 10)"), Literal::Boolean(false));
    assert_eq!(last("(!= 5 10)"), Literal::Boolean(true));
    assert_eq!(last("(!= 5 5)"), Literal::Boolean(false));
    assert_eq!(last("(< -1 1)"), Literal::Boolean(true));
    assert_eq!(last("(< -1 -2)"), Literal::Boolean(false));
    assert_eq!(last("(> -1 -2)"), Literal::Boolean(true));
    assert_eq!(last("(<= 0 -0)"), Literal::Boolean(true));
    assert_eq!(last("(= 0 -0)"), Literal::Boolean(true));
    assert_eq!(last("(>= 2.5 2.25)"), Literal::Boolean(true));
}

#[test]
fn a_nan_is_unequal_and_unordered() {
    assert_eq!(last("(define n (/ 0 0)) (= n n)"), Literal::Boolean(false));
    assert_eq!(last("(define n (/ 0 0)) (!= n n)"), Literal::Boolean(true));
    assert_eq!(last("(define n (/ 0 0)) (< n 1)"), Literal::Boolean(false));
    assert_eq!(last("(define n (/ 0 0)) (>= n 1)"), Literal::Boolean(false));
    assert_eq!(last("(define n (/ 0 0)) (<= n n)"), Literal::Boolean(false));
}

#[test]
fn relations_on_other_values() {
    assert_eq!(last("(< \"abc\" \"abd\")"), Literal::Boolean(true));
    assert_eq!(last("(< \"ab\" \"abc\")"), Literal::Boolean(true));
    assert_eq!(last("(> \"b\" \"abc\")"), Literal::Boolean(true));
    assert_eq!(last("(< false true)"), Literal::Boolean(true));
    assert_eq!(last("(= \"a\" \"a\")"), Literal::Boolean(true));
    assert_eq!(last("(= [1 2] [1 2])"), Literal::Boolean(true));
    assert_eq!(last("(= [1 2] [1 3])"), Literal::Boolean(false));
    assert_eq!(last("(< [1 2] [1 3])"), Literal::Boolean(true));
    assert_eq!(last("(< [1 2] [1 2 0])"), Literal::Boolean(true));
    assert_eq!(last("(= 1 \"1\")"), Literal::Boolean(false));
}

#[test]
fn values_of_different_kinds_are_ordered_by_kind() {
    // Void, then vectors, then numbers, then strings, then booleans.
    assert_eq!(last("(< () [9])"), Literal::Boolean(true));
    assert_eq!(last("(< [9] 1)"), Literal::Boolean(true));
    assert_eq!(last("(< 1 \"0\")"), Literal::Boolean(true));
    assert_eq!(last("(< \"z\" false)"), Literal::Boolean(true));
    assert_eq!(last("(> true 100)"), Literal::Boolean(true));
}

#[test]
fn the_order_of_literals() {
    assert_eq!(order_literals(&number(1.0), &number(2.0)), Some(Order::Less));
    assert_eq!(order_literals(&number(2.0), &number(2.0)), Some(Order::Equal));
    assert_eq!(order_literals(&number(-0.0), &number(0.0)), Some(Order::Equal));
    assert_eq!(order_literals(&number(3.0), &number(-2.0)), Some(Order::Greater));
    assert_eq!(order_literals(&number(f64::NAN), &number(2.0)), None);
    assert_eq!(
        order_literals(
            &Literal::Vector(vec![number(1.0), number(f64::NAN)]),
            &Literal::Vector(vec![number(2.0), number(0.0)])
        ),
        Some(Order::Less)
    );
    assert_eq!(
        order_literals(
            &Literal::Vector(vec![number(1.0), number(f64::NAN)]),
            &Literal::Vector(vec![number(1.0), number(0.0)])
        ),
        None
    );
    assert_eq!(
        order_literals(
            &Literal::MathOperator(MathOperators::Add),
            &Literal::MathOperator(MathOperators::Divide)
        ),
        Some(Order::Less)
    );
    assert_eq!(
        order_literals(
            &Literal::BinaryOperator(Operator::NotEqual),
            &Literal::BinaryOperator(Operator::Equal)
        ),
        Some(Order::Greater)
    );
    assert_eq!(order_literals(&Literal::If, &Literal::If), Some(Order::Equal));
}

#[test]
fn literals_compare_with_the_operators_of_the_language() {
    assert!(number(1.0) < number(2.0));
    assert!(number(2.0) >= number(2.0));
    assert!(!(number(f64::NAN) <= number(f64::NAN)));
    assert!(number(f64::NAN) != number(f64::NAN));
    assert!(number(0.0) == number(-0.0));
    assert!(string("a") < string("b"));
    assert!(Literal::Void < Literal::If);
    assert!(MathOperators::Add < MathOperators::Subtract);
    assert!(Operator::Equal < Operator::NotEqual);
}

#[test]
fn a_relation_takes_exactly_two_operands() {
    assert_eq!(run("(= 1)"), Err(EvalError::ArityMismatch));
    assert_eq!(run("(= 1 2 3)"), Err(EvalError::ArityMismatch));
    assert_eq!(run("(<)"), Err(EvalError::ArityMismatch));
}

// Symbols, definitions and the head of a list.

#[test]
fn a_definition_gives_void_and_binds_the_name() {
    assert_eq!(run("(define x 5)(+ 1 x)"), Ok(vec![Literal::Void, number(6.0)]));
    assert_eq!(last("(define x 5)(define x 6) (x)"), number(6.0));
}

#[test]
fn a_definition_needs_a_name_and_a_value() {
    assert_eq!(run("(define)"), Err(EvalError::ArityMismatch));
    assert_eq!(run("(define x)"), Err(EvalError::ArityMismatch));
    assert_eq!(run("(define 5 5)"), Err(EvalError::TypeMismatch));
    assert_eq!(run("(define x y)"), Err(EvalError::UnknownSymbol));
}

#[test]
fn an_unbound_symbol_is_unknown() {
    assert_eq!(run("(x)"), Err(EvalError::UnknownSymbol));
    assert_eq!(run("(+ 1 x)"), Err(EvalError::UnknownSymbol));
}

#[test]
fn a_symbol_bound_to_a_value_gives_it_as_a_head_too() {
    assert_eq!(last("(define numbers [1 2]) (numbers 7 8)"), Literal::Vector(vec![
        number(1.0),
        number(2.0)
    ]));
}

#[test]
fn a_list_headed_by_a_list_is_the_inner_list_alone() {
    assert_eq!(last("((+ 1 2) (undefined-symbol))"), number(3.0));
    assert_eq!(last("(((+ 1 2)))"), number(3.0));
}

#[test]
fn a_list_headed_by_a_value_is_that_value() {
    assert_eq!(last("(\"a\" b c)"), string("a"));
    assert_eq!(last("(true b)"), Literal::Boolean(true));
    assert_eq!(last("(5 b)"), number(5.0));
    assert_eq!(last("(() b)"), Literal::Void);
    assert_eq!(last("([1 x] b)"), Literal::Vector(vec![number(1.0), symbol("x")]));
}

#[test]
fn a_list_without_items_is_void() {
    let host = Host { calculate, truncate, render };
    let mut variables = Variables::new();
    let mut deleted = Vec::new();
    let mut output = Vec::new();
    assert_eq!(
        eval_list(&vec![], &mut variables, &mut deleted, &mut output, 8, &host),
        Ok(Literal::Void)
    );
}

#[test]
fn an_operator_or_a_function_in_the_place_of_an_operand_is_a_type_mismatch() {
    assert_eq!(run("(+ 1 +)"), Err(EvalError::TypeMismatch));
    assert_eq!(run("(define x if)"), Err(EvalError::TypeMismatch));
    assert_eq!(run("(define x <)"), Err(EvalError::TypeMismatch));
    assert_eq!(
        run("(fn f [x] x) (define v (join [] f)) (map f v)"),
        Err(EvalError::TypeMismatch)
    );
}

// if, do, str, print.

#[test]
fn the_branch_not_taken_is_not_evaluated() {
    assert_eq!(last("(if true 10 (undefined-symbol))"), number(10.0));
    assert_eq!(last("(if false (undefined-symbol) 20)"), number(20.0));
    assert_eq!(run("(if false 10 (undefined-symbol))"), Err(EvalError::UnknownSymbol));
    assert_eq!(
        run("(if true (define a 1) (define b 2)) (a) (b)"),
        Err(EvalError::UnknownSymbol)
    );
}

#[test]
fn a_condition_has_to_be_a_boolean() {
    assert_eq!(run("(if 1 2 3)"), Err(EvalError::TypeMismatch));
    assert_eq!(run("(if true 2)"), Err(EvalError::ArityMismatch));
    assert_eq!(run("(if)"), Err(EvalError::ArityMismatch));
    assert_eq!(run("(if true 2 3 4)"), Err(EvalError::ArityMismatch));
    assert_eq!(run("(if (undefined-symbol) 2 3 4)"), Err(EvalError::ArityMismatch));
}

#[test]
fn do_evaluates_in_order_and_gives_void() {
    assert_eq!(last("(do (define x 1) (define y (+ x 1))) (y)"), number(2.0));
    assert_eq!(last("(do 1 2 3)"), Literal::Void);
    assert_eq!(last("(do)"), Literal::Void);
    assert_eq!(run("(do (define x 1) (z) (define y 2))"), Err(EvalError::UnknownSymbol));
}

#[test]
fn str_joins_the_texts_of_its_operands() {
    assert_eq!(last("(str \"a\" 1 true \"b\")"), string("a1trueb"));
    assert_eq!(last("(str 1.5 -2)"), string("1.5-2"));
    assert_eq!(last("(str)"), Literal::Void);
    assert_eq!(last("(str \"x\")"), string("x"));
    assert_eq!(last("(str 5)"), string("5"));
    assert_eq!(last("(str [1 \"a\" [2]])"), string("[ 1 a [ 2  ]  ]"));
    assert_eq!(last("(str [])"), string("[  ]"));
    assert_eq!(last("(str ())"), string("()"));
    assert_eq!(last("(fn f [x] x) (define g f) (str g)"), string("(liwb function#f)"));
}

#[test]
fn str_resolves_escapes_in_strings() {
    assert_eq!(last(r#"(str "a\nb")"#), string("a\nb"));
    assert_eq!(last(r#"(str "a\tb\rc")"#), string("a\tb\rc"));
    assert_eq!(last(r#"(str "a\\nb")"#), string("a\\nb"));
    assert_eq!(last(r#"(str "a\qb\")"#), string("aqb\\"));
    assert_eq!(last(r#"(str "x\n" "y\n")"#), string("x\ny\n"));
}

#[test]
fn escapes_are_resolved_from_left_to_right() {
    assert_eq!(unescape("plain"), "plain");
    assert_eq!(unescape("a\\nb"), "a\nb");
    assert_eq!(unescape("\\t\\r\\n"), "\t\r\n");
    assert_eq!(unescape("\\\\n"), "\\n");
    assert_eq!(unescape("\\\\\\n"), "\\\n");
    assert_eq!(unescape("end\\"), "end\\");
    assert_eq!(unescape("\\\nx"), "\nx");
    assert_eq!(unescape("\\é\\n"), "é\n");
    assert_eq!(unescape(""), "");
}

#[test]
fn the_text_of_a_literal() {
    let host = Host { calculate, truncate, render };
    assert_eq!(number(2.5).render(&host), "2.5");
    assert_eq!(number(3.0).render(&host), "3");
    assert_eq!(Literal::Boolean(false).render(&host), "false");
    assert_eq!(string("a\\nb").render(&host), "a\\nb");
    assert_eq!(symbol("name").render(&host), "name");
    assert_eq!(Literal::Void.render(&host), "()");
    assert_eq!(Literal::If.render(&host), "()");
    assert_eq!(Literal::List(vec![number(1.0)]).render(&host), "()");
    assert_eq!(
        Literal::Vector(vec![number(1.0), Literal::Boolean(true)]).render(&host),
        "[ 1 true  ]"
    );
}

#[test]
fn print_adds_each_text_to_the_output() {
    let (result, output) = run_with_output(r#"(print "a\tb" 1 [2]) (print) (print "c")"#);
    assert_eq!(result, Ok(vec![Literal::Void, Literal::Void, Literal::Void]));
    assert_eq!(output, vec!["a\tb ", "1 ", "[ 2  ] ", "c "]);
}

#[test]
fn print_prints_nothing_when_an_operand_fails() {
    let (result, output) = run_with_output("(print 1) (print 2 (x))");
    assert_eq!(result, Err(EvalError::UnknownSymbol));
    assert_eq!(output, vec!["1 "]);
}

// delete.

#[test]
fn a_deleted_value_cannot_be_evaluated() {
    assert_eq!(run("(delete 5) (+ 1 5)"), Err(EvalError::DeletedLiteralUse));
    assert_eq!(run("(delete 5) (define x 5)"), Err(EvalError::DeletedLiteralUse));
    assert_eq!(run("(delete 5) (if true 5 1)"), Err(EvalError::DeletedLiteralUse));
    assert_eq!(last("(delete 5) (+ 1 4)"), number(5.0));
    assert_eq!(last("(delete 5) (+ 2 3 1)"), number(6.0));
}

#[test]
fn delete_blacklists_a_value_not_a_variable() {
    assert_eq!(last("(define x 5) (delete 6) (x)"), number(5.0));
    assert_eq!(run("(define x 5) (delete x) (+ x 1)"), Err(EvalError::DeletedLiteralUse));
    assert_eq!(last("(define x 5) (define y 5) (delete x) (+ y 1)"), number(6.0));
}

#[test]
fn delete_does_not_evaluate_its_operands() {
    assert_eq!(last("(delete (undefined-symbol) y)"), Literal::Void);
    assert_eq!(run("(delete (+ 1 2)) (+ 1 2)"), Err(EvalError::DeletedLiteralUse));
    assert_eq!(last("(delete (+ 1 2)) (+ 2 1)"), number(3.0));
    assert_eq!(last("(delete 1) (delete 2) (delete)"), Literal::Void);
}

#[test]
fn deleted_values_are_kept_in_order() {
    let host = Host { calculate, truncate, render };
    let mut variables = Variables::new();
    let mut deleted = vec![number(1.0)];
    let mut output = Vec::new();
    let list = Literal::List(first_form("(delete 2 \"a\" [3])"));
    assert_eq!(
        eval_literal(&list, &mut variables, &mut deleted, &mut output, 8, &host),
        Ok(Literal::Void)
    );
    assert_eq!(
        deleted,
        vec![number(1.0), number(2.0), string("a"), Literal::Vector(vec![number(3.0)])]
    );
}

// Functions.

#[test]
fn a_function_is_bound_under_its_name() {
    let mut variables = Variables::new();
    let list = first_form("(fn add [a () b] (+ a b))");
    assert_eq!(define_function(&list, &mut variables), Ok(Literal::Void));
    assert_eq!(
        variables.get(&"add".to_string()),
        Some(&Literal::Function {
            name: "add".to_string(),
            args: vec!["a".to_string(), "b".to_string()],
            body: Box::new(Literal::List(vec![
                Literal::MathOperator(MathOperators::Add),
                symbol("a"),
                symbol("b")
            ])),
        })
    );
}

#[test]
fn a_function_definition_needs_a_name_parameters_and_a_body() {
    assert_eq!(run("(fn)"), Err(EvalError::ArityMismatch));
    assert_eq!(run("(fn f)"), Err(EvalError::ArityMismatch));
    assert_eq!(run("(fn f [x])"), Err(EvalError::ArityMismatch));
    assert_eq!(run("(fn 1 [x] x)"), Err(EvalError::TypeMismatch));
    assert_eq!(run("(fn f x x)"), Err(EvalError::TypeMismatch));
    assert_eq!(run("(fn f [x 1] x)"), Err(EvalError::TypeMismatch));
    assert_eq!(run("(fn f [1])"), Err(EvalError::TypeMismatch));
}

#[test]
fn a_call_takes_as_many_arguments_as_parameters() {
    assert_eq!(run("(fn f [a b] a) (f 1)"), Err(EvalError::ArityMismatch));
    assert_eq!(run("(fn f [a b] a) (f 1 2 3)"), Err(EvalError::ArityMismatch));
    assert_eq!(run("(fn f [] 1) (f 1)"), Err(EvalError::ArityMismatch));
    assert_eq!(last("(fn f [a b] b) (f 1 2)"), number(2.0));
}

#[test]
fn a_call_leaves_the_callers_environment_alone() {
    assert_eq!(
        run("(define x 1) (fn f [x] (do (define y x) (define x 9))) (f 5) (x) (y)"),
        Err(EvalError::UnknownSymbol)
    );
    assert_eq!(
        last("(define x 1) (fn f [x] (do (define x 9) (define z 3))) (f 5) (x)"),
        number(1.0)
    );
}

#[test]
fn arguments_are_evaluated_in_the_callers_environment() {
    assert_eq!(last("(define x 1) (fn f [a] (+ a x)) (f (+ x 1))"), number(3.0));
    assert_eq!(last("(fn f [a] a) (f (define y 4)) (y)"), number(4.0));
}

#[test]
fn a_function_sees_what_was_defined_after_it() {
    assert_eq!(last("(fn f [a] (+ a later)) (define later 10) (f 1)"), number(11.0));
}

#[test]
fn a_deletion_inside_a_function_stays() {
    assert_eq!(
        run("(fn f [] (delete 7)) (f) (+ 7 1)"),
        Err(EvalError::DeletedLiteralUse)
    );
}

#[test]
fn a_function_that_calls_itself_returns() {
    let source = "(fn fact [n] (if (<= n 1) 1 (* n (fact (- n 1))))) (fact 10)";
    assert_eq!(last(source), number(3628800.0));
    let source = "(define n 100) (fn fib [n] (if (< n 2) n (+ (fib (- n 1)) (fib (- n 2))))) \
                  (fib 10) (n)";
    assert_eq!(
        run(source),
        Ok(vec![Literal::Void, Literal::Void, number(55.0), number(100.0)])
    );
}

#[test]
fn fibonacci_of_every_small_number() {
    let expected = [0.0, 1.0, 1.0, 2.0, 3.0, 5.0, 8.0, 13.0, 21.0, 34.0, 55.0];
    for (n, value) in expected.iter().enumerate() {
        let source = format!(
            "(fn fib [n] (if (< n 2) n (+ (fib (- n 1)) (fib (- n 2))))) (fib {n}) (fib)"
        );
        let literals = parse(lex(&source)).unwrap();
        let host = Host { calculate, truncate, render };
        let mut variables = Variables::new();
        let mut deleted = Vec::new();
        let mut output = Vec::new();
        assert_eq!(
            eval_literal(&literals[0], &mut variables, &mut deleted, &mut output, 64, &host),
            Ok(Literal::Void)
        );
        let before = variables.clone();
        assert_eq!(
            eval_literal(&literals[1], &mut variables, &mut deleted, &mut output, 3 * n + 3, &host),
            Ok(number(*value))
        );
        assert_eq!(
            eval_literal(&literals[1], &mut variables, &mut deleted, &mut output, 64, &host),
            Ok(number(*value))
        );
        // The call has bound nothing in the environment of its caller.
        assert_eq!(variables.get(&"n".to_string()), None);
        assert_eq!(variables.get(&"fib".to_string()), before.get(&"fib".to_string()));
        // A call that fails leaves it alone as well.
        assert_eq!(
            eval_literal(&literals[2], &mut variables, &mut deleted, &mut output, 64, &host),
            Err(EvalError::ArityMismatch)
        );
        assert_eq!(variables.get(&"n".to_string()), None);
    }
}

#[test]
fn a_call_on_a_mapped_definition_binds_in_the_callers_environment() {
    assert_eq!(
        last("(fn id [x] x) (define v [(define y 7)]) (id (map id v)) (y)"),
        number(7.0)
    );
}

#[test]
fn a_call_of_what_is_no_function_is_a_type_mismatch() {
    let host = Host { calculate, truncate, render };
    let mut variables = Variables::new();
    let mut deleted = Vec::new();
    let mut output = Vec::new();
    let list = vec![symbol("f"), number(1.0)];
    assert_eq!(
        eval_function(&number(1.0), &list, &mut variables, &mut deleted, &mut output, 8, &host),
        Err(EvalError::TypeMismatch)
    );
}

#[test]
fn an_evaluation_deeper_than_its_depth_fails() {
    let host = Host { calculate, truncate, render };
    let mut variables = Variables::new();
    let mut deleted = Vec::new();
    let mut output = Vec::new();
    let literal = parse(lex("(+ 1 (+ 2 3))")).unwrap().remove(0);
    assert_eq!(
        eval_literal(&literal, &mut variables, &mut deleted, &mut output, 0, &host),
        Err(EvalError::DepthExceeded)
    );
    assert_eq!(
        eval_literal(&literal, &mut variables, &mut deleted, &mut output, 1, &host),
        Err(EvalError::DepthExceeded)
    );
    assert_eq!(
        eval_literal(&literal, &mut variables, &mut deleted, &mut output, 2, &host),
        Ok(number(6.0))
    );
    assert_eq!(
        eval_literal(&number(1.0), &mut variables, &mut deleted, &mut output, 0, &host),
        Ok(number(1.0))
    );
    assert_eq!(
        eval_literal(&symbol("x"), &mut variables, &mut deleted, &mut output, 0, &host),
        Err(EvalError::UnknownSymbol)
    );
    let inner = parse(lex("((+ 1 2))")).unwrap().remove(0);
    assert_eq!(
        eval_literal(&inner, &mut variables, &mut deleted, &mut output, 1, &host),
        Err(EvalError::DepthExceeded)
    );
    assert_eq!(
        eval_literal(&inner, &mut variables, &mut deleted, &mut output, 2, &host),
        Ok(number(3.0))
    );
}

#[test]
fn a_deleted_value_is_refused_at_any_depth() {
    let host = Host { calculate, truncate, render };
    let mut variables = Variables::new();
    let mut deleted = vec![number(5.0), parse(lex("(+ 1 2)")).unwrap().remove(0)];
    let mut output = Vec::new();
    assert_eq!(
        eval_literal(&number(5.0), &mut variables, &mut deleted, &mut output, 0, &host),
        Err(EvalError::DeletedLiteralUse)
    );
    let literal = parse(lex("(+ 1 2)")).unwrap().remove(0);
    assert_eq!(
        eval_literal(&literal, &mut variables, &mut deleted, &mut output, 0, &host),
        Err(EvalError::DeletedLiteralUse)
    );
}

#[test]
fn a_result_within_the_depth_does_not_depend_on_the_depth() {
    let host = Host { calculate, truncate, render };
    let source = "(fn fib [n] (if (< n 2) n (+ (fib (- n 1)) (fib (- n 2))))) \
                  (fn small [n] (if (< (fib n) 10) n ())) (map small (range 0 9))";
    let literals = parse(lex(source)).unwrap();
    let expected = Literal::Vector((0..=6).map(|n| number(n as f64)).collect());
    let mut succeeded = false;
    for depth in 0..=64 {
        let mut output = Vec::new();
        let result = liwb::evaluator::eval_from_literals(&literals, &mut output, depth, &host);
        if succeeded || depth == 64 {
            assert_eq!(result, Ok(vec![Literal::Void, Literal::Void, expected.clone()]));
        } else if result.is_ok() {
            assert_eq!(result, Ok(vec![Literal::Void, Literal::Void, expected.clone()]));
            assert!(depth > 3);
            succeeded = true;
        } else {
            assert_eq!(result, Err(EvalError::DepthExceeded));
        }
    }
}

#[test]
fn filter_gives_a_vector_at_every_depth() {
    let host = Host { calculate, truncate, render };
    let source = "(fn fib [n] (if (< n 2) n (+ (fib (- n 1)) (fib (- n 2))))) \
                  (fn small [n] (< (fib n) 10)) (filter small (range 0 9))";
    let literals = parse(lex(source)).unwrap();
    let expected = Literal::Vector((0..=6).map(|n| number(n as f64)).collect());
    for depth in 2..=64 {
        let mut output = Vec::new();
        let result = liwb::evaluator::eval_from_literals(&literals, &mut output, depth, &host);
        match result.unwrap().pop().unwrap() {
            Literal::Vector(kept) => assert!(kept.len() <= 7),
            other => panic!("not a vector: {:?}", other),
        }
    }
    let mut output = Vec::new();
    let result = liwb::evaluator::eval_from_literals(&literals, &mut output, 64, &host);
    assert_eq!(result, Ok(vec![Literal::Void, Literal::Void, expected]));
}

#[test]
fn a_function_that_never_returns_exceeds_the_depth() {
    assert_eq!(run("(fn loop [n] (loop (+ n 1))) (loop 0)"), Err(EvalError::DepthExceeded));
}

// Vectors.

#[test]
fn nth_gives_the_item_or_void() {
    assert_eq!(last("(define v [1 2 3]) (nth v 0)"), number(1.0));
    assert_eq!(last("(define v [1 2 3]) (nth v 2)"), number(3.0));
    assert_eq!(last("(define v [1 2 3]) (nth v 3)"), Literal::Void);
    assert_eq!(last("(define v [1 2 3]) (nth v 5)"), Literal::Void);
    assert_eq!(last("(nth [] 0)"), Literal::Void);
    assert_eq!(last("(nth [1 2 3] 1e300)"), Literal::Void);
}

#[test]
fn nth_rounds_its_index() {
    assert_eq!(last("(nth [1 2 3] 0.4)"), number(1.0));
    assert_eq!(last("(nth [1 2 3] 0.5)"), number(2.0));
    assert_eq!(last("(nth [1 2 3] 1.6)"), number(3.0));
    assert_eq!(last("(nth [1 2 3] -0.4)"), number(1.0));
    assert_eq!(last("(nth [1 2 3] -0)"), number(1.0));
}

#[test]
fn nth_takes_no_item_for_a_negative_index() {
    assert_eq!(last("(define v [1 2 3]) (nth v -1)"), Literal::Void);
    assert_eq!(last("(nth [1 2 3] -0.5)"), Literal::Void);
    assert_eq!(last("(nth [1 2 3] -2.4)"), Literal::Void);
    assert_eq!(last("(nth [1 2 3] -1e300)"), Literal::Void);
    assert_eq!(last("(nth [1 2 3] (/ -1 0))"), Literal::Void);
}

#[test]
fn nth_takes_no_item_for_a_nan() {
    assert_eq!(last("(nth [1 2 3] (/ 0 0))"), Literal::Void);
    assert_eq!(last("(nth [1 2 3] (- 0 (/ 0 0)))"), Literal::Void);
    assert_eq!(last("(nth [1 2 3] (/ 1 0))"), Literal::Void);
}

#[test]
fn nth_gives_an_item_as_it_is_written() {
    assert_eq!(
        last("(nth [(+ 1 2) x] 0)"),
        Literal::List(vec![Literal::MathOperator(MathOperators::Add), number(1.0), number(2.0)])
    );
}

#[test]
fn nth_needs_a_vector_and_a_number() {
    assert_eq!(run("(nth [1])"), Err(EvalError::ArityMismatch));
    assert_eq!(run("(nth [1] 0 0)"), Err(EvalError::ArityMismatch));
    assert_eq!(run("(nth 1 0)"), Err(EvalError::TypeMismatch));
    assert_eq!(run("(nth [1] \"0\")"), Err(EvalError::TypeMismatch));
    assert_eq!(run("(nth [1] i)"), Err(EvalError::UnknownSymbol));
}

#[test]
fn nth_evaluates_the_vector_first() {
    assert_eq!(run("(nth 1 i)"), Err(EvalError::TypeMismatch));
    assert_eq!(run("(nth v \"0\")"), Err(EvalError::UnknownSymbol));
}

#[test]
fn join_appends_the_values_of_its_operands() {
    assert_eq!(
        last("(join [1 x] (+ 1 1) \"a\")"),
        Literal::Vector(vec![number(1.0), symbol("x"), number(2.0), string("a")])
    );
    assert_eq!(last("(join [1])"), Literal::Vector(vec![number(1.0)]));
    assert_eq!(
        last("(define v [1]) (join v 2) (v)"),
        Literal::Vector(vec![number(1.0)])
    );
    assert_eq!(run("(join)"), Err(EvalError::ArityMismatch));
    assert_eq!(run("(join 1 2)"), Err(EvalError::TypeMismatch));
    assert_eq!(run("(join [1] x)"), Err(EvalError::UnknownSymbol));
}

#[test]
fn push_appends_like_join() {
    assert_eq!(
        last("(push [1 2] 3)"),
        Literal::Vector(vec![number(1.0), number(2.0), number(3.0)])
    );
    assert_eq!(last("(push [] [1])"), Literal::Vector(vec![Literal::Vector(vec![number(1.0)])]));
}

#[test]
fn range_includes_both_ends() {
    assert_eq!(
        last("(range 1 10)"),
        Literal::Vector((1..=10).map(|n| number(n as f64)).collect())
    );
    assert_eq!(last("(range 5 1)"), Literal::Vector(vec![]));
    assert_eq!(last("(range 3 3)"), Literal::Vector(vec![number(3.0)]));
    assert_eq!(
        last("(range -1 1)"),
        Literal::Vector(vec![number(-1.0), number(0.0), number(1.0)])
    );
}

#[test]
fn range_takes_the_integer_parts() {
    assert_eq!(last("(range 1.9 3.9)"), Literal::Vector(vec![
        number(1.0),
        number(2.0),
        number(3.0)
    ]));
    assert_eq!(last("(range -1.5 0.5)"), Literal::Vector(vec![number(-1.0), number(0.0)]));
    assert_eq!(
        last("(range 9223372036854775807 1e300)"),
        Literal::Vector(vec![number(9223372036854775807.0)])
    );
}

#[test]
fn range_needs_two_numbers() {
    assert_eq!(run("(range)"), Err(EvalError::ArityMismatch));
    assert_eq!(run("(range 1)"), Err(EvalError::ArityMismatch));
    assert_eq!(run("(range \"a\" 1)"), Err(EvalError::TypeMismatch));
    assert_eq!(run("(range 1 [])"), Err(EvalError::TypeMismatch));
}

#[test]
fn map_collects_the_results() {
    assert_eq!(
        last("(fn double [x] (* 2 x)) (map double [1 2 (+ 1 2)])"),
        Literal::Vector(vec![number(2.0), number(4.0), number(6.0)])
    );
    assert_eq!(last("(fn double [x] (* 2 x)) (map double [])"), Literal::Vector(vec![]));
}

#[test]
fn map_drops_void_results() {
    assert_eq!(
        last("(fn big [x] (if (> x 2) x ())) (map big [1 2 3 4])"),
        Literal::Vector(vec![number(3.0), number(4.0)])
    );
    assert_eq!(last("(fn none [x] ()) (map none [1 2 3])"), Literal::Vector(vec![]));
}

#[test]
fn map_fails_when_a_call_fails() {
    assert_eq!(
        run("(fn double [x] (* 2 x)) (map double [1 \"a\" 3])"),
        Err(EvalError::TypeMismatch)
    );
    assert_eq!(run("(fn two [a b] a) (map two [1])"), Err(EvalError::ArityMismatch));
}

#[test]
fn map_and_filter_need_a_function_and_a_vector() {
    for operator in ["map", "filter"] {
        assert_eq!(run(&format!("({operator} f)")), Err(EvalError::ArityMismatch));
        assert_eq!(run(&format!("({operator} f [1] 2)")), Err(EvalError::ArityMismatch));
        assert_eq!(run(&format!("({operator} 5 [1])")), Err(EvalError::TypeMismatch));
        assert_eq!(run(&format!("({operator} f [1])")), Err(EvalError::UnknownSymbol));
        assert_eq!(
            run(&format!("(define f 1) ({operator} f [1])")),
            Err(EvalError::TypeMismatch)
        );
        assert_eq!(
            run(&format!("(fn f [x] x) ({operator} f 1)")),
            Err(EvalError::TypeMismatch)
        );
    }
}

#[test]
fn filter_keeps_the_items_that_give_true() {
    assert_eq!(
        last("(fn even [x] (= (mod x 2) 0)) (filter even (range 1 6))"),
        Literal::Vector(vec![number(2.0), number(4.0), number(6.0)])
    );
    assert_eq!(
        last("(fn id [x] x) (filter id [true 1 false \"true\" true])"),
        Literal::Vector(vec![Literal::Boolean(true), Literal::Boolean(true)])
    );
}

#[test]
fn filter_leaves_out_an_item_whose_call_fails() {
    assert_eq!(
        last("(fn small [x] (< (+ x 0) 3)) (filter small [1 \"a\" 2 5 (undefined-symbol)])"),
        Literal::Vector(vec![number(1.0), number(2.0)])
    );
    assert_eq!(
        last("(fn two [a b] true) (filter two [1 2])"),
        Literal::Vector(vec![])
    );
}

#[test]
fn filter_leaves_out_an_item_whose_call_exceeds_the_depth() {
    assert_eq!(
        last("(fn forever [n] (forever n)) (filter forever [1 2])"),
        Literal::Vector(vec![])
    );
    assert_eq!(
        last("(fn stops [n] (if (< n 2) true (forever n))) (fn forever [n] (forever n)) \
              (filter stops [0 1 2 3 1])"),
        Literal::Vector(vec![number(0.0), number(1.0), number(1.0)])
    );
    assert_eq!(
        run("(fn forever [n] (forever n)) (map forever [1 2])"),
        Err(EvalError::DepthExceeded)
    );
}

#[test]
fn filter_keeps_the_items_as_they_are_written() {
    assert_eq!(
        last("(fn positive [x] (> x 0)) (filter positive [(+ 1 1) (- 1 2)])"),
        Literal::Vector(vec![Literal::List(vec![
            Literal::MathOperator(MathOperators::Add),
            number(1.0),
            number(1.0)
        ])])
    );
}

#[test]
fn a_name_that_is_no_vector_operator_is_an_unknown_operator() {
    let host = Host { calculate, truncate, render };
    let mut variables = Variables::new();
    let mut deleted = Vec::new();
    let mut output = Vec::new();
    let list = vec![symbol("reverse"), Literal::Vector(vec![])];
    assert_eq!(
        eval_vector_operation(&list, &mut variables, &mut deleted, &mut output, 8, &host),
        Err(EvalError::UnknownOperator)
    );
    let list = vec![number(1.0)];
    assert_eq!(
        eval_vector_operation(&list, &mut variables, &mut deleted, &mut output, 8, &host),
        Err(EvalError::TypeMismatch)
    );
    assert_eq!(
        eval_vector_operation(&vec![], &mut variables, &mut deleted, &mut output, 8, &host),
        Err(EvalError::ArityMismatch)
    );
}

// The environment.

#[test]
fn the_environment_keeps_the_last_binding_of_a_name() {
    let mut variables = Variables::new();
    assert_eq!(variables.get(&"x".to_string()), None);
    variables.insert("x".to_string(), number(1.0));
    variables.insert("y".to_string(), number(2.0));
    variables.insert("x".to_string(), number(3.0));
    assert_eq!(variables.get(&"x".to_string()), Some(&number(3.0)));
    assert_eq!(variables.get(&"y".to_string()), Some(&number(2.0)));
    let copy = variables.clone();
    variables.insert("y".to_string(), number(4.0));
    assert_eq!(copy.get(&"y".to_string()), Some(&number(2.0)));
    assert_eq!(variables.get(&"y".to_string()), Some(&number(4.0)));
}

#[test]
fn an_empty_program_is_one_void() {
    assert_eq!(run(""), Ok(vec![Literal::Void]));
    assert_eq!(parse(lex("")), Ok::<Vec<Literal>, ParseError>(vec![Literal::Void]));
}

#[test]
fn the_first_failure_ends_a_program() {
    let (result, output) = run_with_output("(print 1) (x) (print 2)");
    assert_eq!(result, Err(EvalError::UnknownSymbol));
    assert_eq!(output, vec!["1 "]);
}
