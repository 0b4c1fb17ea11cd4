//! A function that calls itself: the Fibonacci numbers.
//!
//! The library computes nothing on numbers, so the law is stated for every
//! host that counts: one that adds and subtracts small whole numbers as
//! they are added and subtracted, in whatever bits it writes them.

use vstd::prelude::*;
use crate::comparison::{int_order, number_order, value_order};
use crate::error::EvalError;
use crate::host::{Calculation, Numbers};
use crate::literals::{MathOperators, Operator, Value};
use crate::semantics::{
    Rules, State, binary_operator_outcome, bound, call_outcome, done, each_outcome, fold_outcome,
    if_outcome, is_vector_operator, list_outcome, literal_outcome, math_function_named,
    math_outcome, relation_holds, relation_outcome,
};

verus! {

/// The Fibonacci numbers.
pub open spec fn fibonacci(n: nat) -> nat
    decreases n,
{
    if n < 2 {
        n
    } else {
        fibonacci((n - 1) as nat) + fibonacci((n - 2) as nat)
    }
}

/// Whether a host counts up to a limit in the bits that `bits` gives the
/// whole numbers: it adds and subtracts them as they are added and
/// subtracted, and the bits are ordered as the numbers are.
pub open spec fn counts(numbers: Numbers, bits: spec_fn(nat) -> u64, limit: nat) -> bool {
    &&& forall|a: nat, b: nat|
        a + b <= limit ==> #[trigger] (numbers.calculate)(
            Calculation::Arithmetic(MathOperators::Add, bits(a), bits(b)),
        ) == bits(a + b)
    &&& forall|a: nat, b: nat|
        b <= a <= limit ==> #[trigger] (numbers.calculate)(
            Calculation::Arithmetic(MathOperators::Subtract, bits(a), bits(b)),
        ) == bits((a - b) as nat)
    &&& forall|a: nat, b: nat|
        a <= limit && b <= limit ==> #[trigger] number_order(bits(a), bits(b)) == Some(
            int_order(a as int, b as int),
        )
}

/// Whether a name can be that of a function: no form and no operator goes
/// by it.
pub open spec fn names_a_function(name: Seq<char>) -> bool {
    &&& name != "fn"@
    &&& name != "define"@
    &&& name != "print"@
    &&& name != "do"@
    &&& name != "str"@
    &&& name != "delete"@
    &&& math_function_named(name) is None
    &&& name != "mod"@
    &&& !is_vector_operator(name)
}

/// The expression `(- p j)`: the parameter less a number.
pub open spec fn less_form(param: Seq<char>, j: u64) -> Value {
    Value::List(
        seq![
            Value::MathOperator(MathOperators::Subtract),
            Value::Symbol(param),
            Value::Number(j),
        ],
    )
}

/// The expression `(< p 2)`.
pub open spec fn small_form(param: Seq<char>, two: u64) -> Value {
    Value::List(
        seq![
            Value::BinaryOperator(Operator::LessThan),
            Value::Symbol(param),
            Value::Number(two),
        ],
    )
}

/// The expression `(f a)`: a call on one argument.
pub open spec fn call_on(name: Seq<char>, argument: Value) -> Value {
    Value::List(seq![Value::Symbol(name), argument])
}

/// The expression `(+ (f (- p 1)) (f (- p 2)))`.
pub open spec fn sum_form(name: Seq<char>, param: Seq<char>, one: u64, two: u64) -> Value {
    Value::List(
        seq![
            Value::MathOperator(MathOperators::Add),
            call_on(name, less_form(param, one)),
            call_on(name, less_form(param, two)),
        ],
    )
}

/// The body `(if (< p 2) p (+ (f (- p 1)) (f (- p 2))))`.
pub open spec fn fibonacci_body(name: Seq<char>, param: Seq<char>, one: u64, two: u64) -> Value {
    Value::List(
        seq![
            Value::If,
            small_form(param, two),
            Value::Symbol(param),
            sum_form(name, param, one, two),
        ],
    )
}

/// The function `(fn f [p] (if (< p 2) p (+ (f (- p 1)) (f (- p 2)))))`.
pub open spec fn fibonacci_function(
    name: Seq<char>,
    param: Seq<char>,
    one: u64,
    two: u64,
) -> Value {
    Value::Function {
        name: name,
        args: seq![param],
        body: Box::new(fibonacci_body(name, param, one, two)),
    }
}

proof fn lemma_parameter(rules: Rules, param: Seq<char>, v: Value, s: State, depth: nat)
    requires
        s.deleted.len() == 0,
        s.variables.contains_key(param),
        s.variables[param] == v,
    ensures
        literal_outcome(rules, Value::Symbol(param), s, depth) == done(v, s),
{
}

proof fn lemma_number(rules: Rules, n: u64, s: State, depth: nat)
    requires
        s.deleted.len() == 0,
    ensures
        literal_outcome(rules, Value::Number(n), s, depth) == done(Value::Number(n), s),
{
}

proof fn lemma_less(
    rules: Rules,
    bits: spec_fn(nat) -> u64,
    limit: nat,
    param: Seq<char>,
    k: nat,
    j: nat,
    s: State,
    depth: nat,
)
    requires
        counts(rules.numbers, bits, limit),
        j <= k <= limit,
        s.deleted.len() == 0,
        s.variables.contains_key(param),
        s.variables[param] == Value::Number(bits(k)),
        depth >= 1,
    ensures
        literal_outcome(rules, less_form(param, bits(j)), s, depth) == done(
            Value::Number(bits((k - j) as nat)),
            s,
        ),
{
    let list = less_form(param, bits(j))->List_0;
    let d = (depth - 1) as nat;
    lemma_parameter(rules, param, Value::Number(bits(k)), s, d);
    lemma_number(rules, bits(j), s, d);
    assert(list[1] == Value::Symbol(param));
    assert(list[2] == Value::Number(bits(j)));
    let difference = (rules.numbers.calculate)(
        Calculation::Arithmetic(MathOperators::Subtract, bits(k), bits(j)),
    );
    assert(difference == bits((k - j) as nat));
    assert(fold_outcome(rules, MathOperators::Subtract, list, 3, difference, s, d) == done(
        Value::Number(difference),
        s,
    ));
    assert(fold_outcome(rules, MathOperators::Subtract, list, 2, bits(k), s, d) == done(
        Value::Number(difference),
        s,
    ));
    assert(math_outcome(rules, list, s, d) == done(Value::Number(difference), s));
    assert(list_outcome(rules, list, s, d) == done(Value::Number(difference), s));
}

proof fn lemma_small(
    rules: Rules,
    bits: spec_fn(nat) -> u64,
    limit: nat,
    param: Seq<char>,
    k: nat,
    s: State,
    depth: nat,
)
    requires
        counts(rules.numbers, bits, limit),
        k <= limit,
        2 <= limit,
        s.deleted.len() == 0,
        s.variables.contains_key(param),
        s.variables[param] == Value::Number(bits(k)),
        depth >= 1,
    ensures
        literal_outcome(rules, small_form(param, bits(2)), s, depth) == done(
            Value::Boolean(k < 2),
            s,
        ),
{
    let list = small_form(param, bits(2))->List_0;
    let d = (depth - 1) as nat;
    lemma_parameter(rules, param, Value::Number(bits(k)), s, d);
    lemma_number(rules, bits(2), s, d);
    assert(list[1] == Value::Symbol(param));
    assert(list[2] == Value::Number(bits(2)));
    assert(number_order(bits(k), bits(2)) == Some(int_order(k as int, 2)));
    assert(value_order(Value::Number(bits(k)), Value::Number(bits(2))) == number_order(
        bits(k),
        bits(2),
    ));
    assert(relation_holds(
        Operator::LessThan,
        Value::Number(bits(k)),
        Value::Number(bits(2)),
    ) == (k < 2));
    assert(relation_outcome(rules, list, s, d) == done(Value::Boolean(k < 2), s));
    assert(binary_operator_outcome(rules, list, s, d) == done(Value::Boolean(k < 2), s));
    assert(list_outcome(rules, list, s, d) == done(Value::Boolean(k < 2), s));
}

proof fn lemma_fibonacci_call(
    rules: Rules,
    bits: spec_fn(nat) -> u64,
    limit: nat,
    name: Seq<char>,
    param: Seq<char>,
    argument: Value,
    k: nat,
    s: State,
    depth: nat,
)
    requires
        counts(rules.numbers, bits, limit),
        2 <= limit,
        k <= limit,
        fibonacci(k) <= limit,
        names_a_function(name),
        param != name,
        s.deleted.len() == 0,
        s.variables.contains_key(name),
        s.variables[name] == fibonacci_function(name, param, bits(1), bits(2)),
        literal_outcome(rules, argument, s, depth) == done(Value::Number(bits(k)), s),
        depth >= 3 * k + 2,
    ensures
        call_outcome(rules, s.variables[name], seq![Value::Symbol(name), argument], s, depth)
            == done(Value::Number(bits(fibonacci(k))), s),
        list_outcome(rules, seq![Value::Symbol(name), argument], s, depth) == done(
            Value::Number(bits(fibonacci(k))),
            s,
        ),
    decreases k,
{
    let function = fibonacci_function(name, param, bits(1), bits(2));
    let list = seq![Value::Symbol(name), argument];
    let given = Value::Number(bits(k));
    // The argument.
    assert(list[1] == argument);
    assert(Seq::<Value>::empty().push(given) =~= seq![given]);
    assert(each_outcome(rules, list, 2, seq![given], s, depth).result == Ok::<
        Seq<Value>,
        EvalError,
    >(seq![given]));
    assert(each_outcome(rules, list, 2, seq![given], s, depth).state == s);
    let arguments = each_outcome(rules, list, 1, Seq::empty(), s, depth);
    assert(arguments == each_outcome(rules, list, 2, seq![given], s, depth));
    // The environment of the body.
    let params = seq![param];
    let values = seq![given];
    assert(bound(s.variables.insert(param, given), params, values, 1) == s.variables.insert(
        param,
        given,
    ));
    assert(bound(s.variables, params, values, 0) == s.variables.insert(param, given));
    let local = State { variables: s.variables.insert(param, given), ..s };
    assert(local.variables[name] == function);
    // The body.
    let body = fibonacci_body(name, param, bits(1), bits(2));
    let forms = body->List_0;
    let d1 = (depth - 1) as nat;
    assert(forms[0] == Value::If);
    assert(forms[1] == small_form(param, bits(2)));
    assert(forms[2] == Value::Symbol(param));
    assert(forms[3] == sum_form(name, param, bits(1), bits(2)));
    lemma_small(rules, bits, limit, param, k, local, d1);
    let result = Value::Number(bits(fibonacci(k)));
    if k < 2 {
        lemma_parameter(rules, param, given, local, d1);
        assert(if_outcome(rules, forms, local, d1) == done(result, local));
    } else {
        let d2 = (depth - 2) as nat;
        let d3 = (depth - 3) as nat;
        let sum = sum_form(name, param, bits(1), bits(2))->List_0;
        let first = call_on(name, less_form(param, bits(1)));
        let second = call_on(name, less_form(param, bits(2)));
        assert(sum[0] == Value::MathOperator(MathOperators::Add));
        assert(sum[1] == first);
        assert(sum[2] == second);
        let k1 = (k - 1) as nat;
        let k2 = (k - 2) as nat;
        assert(fibonacci(k) == fibonacci(k1) + fibonacci(k2));
        lemma_less(rules, bits, limit, param, k, 1, local, d3);
        lemma_fibonacci_call(
            rules,
            bits,
            limit,
            name,
            param,
            less_form(param, bits(1)),
            k1,
            local,
            d3,
        );
        assert(first->List_0 =~= seq![Value::Symbol(name), less_form(param, bits(1))]);
        assert(literal_outcome(rules, first, local, d2) == done(
            Value::Number(bits(fibonacci(k1))),
            local,
        ));
        lemma_less(rules, bits, limit, param, k, 2, local, d3);
        lemma_fibonacci_call(
            rules,
            bits,
            limit,
            name,
            param,
            less_form(param, bits(2)),
            k2,
            local,
            d3,
        );
        assert(second->List_0 =~= seq![Value::Symbol(name), less_form(param, bits(2))]);
        assert(literal_outcome(rules, second, local, d2) == done(
            Value::Number(bits(fibonacci(k2))),
            local,
        ));
        let total = (rules.numbers.calculate)(
            Calculation::Arithmetic(
                MathOperators::Add,
                bits(fibonacci(k1)),
                bits(fibonacci(k2)),
            ),
        );
        assert(total == bits(fibonacci(k)));
        assert(fold_outcome(rules, MathOperators::Add, sum, 3, total, local, d2) == done(
            result,
            local,
        ));
        assert(fold_outcome(
            rules,
            MathOperators::Add,
            sum,
            2,
            bits(fibonacci(k1)),
            local,
            d2,
        ) == done(result, local));
        assert(math_outcome(rules, sum, local, d2) == done(result, local));
        assert(list_outcome(rules, sum, local, d2) == done(result, local));
        assert(literal_outcome(rules, sum_form(name, param, bits(1), bits(2)), local, d1) == done(
            result,
            local,
        ));
        assert(if_outcome(rules, forms, local, d1) == done(result, local));
    }
    assert(list_outcome(rules, forms, local, d1) == done(result, local));
    assert(literal_outcome(rules, body, local, depth) == done(result, local));
    assert(State { variables: s.variables, ..local } == s);
    assert(call_outcome(rules, function, list, s, depth) == done(result, s));
}

/// A function that calls itself gives the Fibonacci numbers. Under a host
/// that counts up to them, and where nothing is deleted, the call of
///
/// `(fn f [p] (if (< p 2) p (+ (f (- p 1)) (f (- p 2)))))`
///
/// on the number `k` gives the `k`-th Fibonacci number at every depth from
/// `3 * k + 2` on, and leaves the state as it was. The function finds itself
/// in the copy of the environment that its body is evaluated in.
pub proof fn law_fibonacci(
    rules: Rules,
    bits: spec_fn(nat) -> u64,
    limit: nat,
    name: Seq<char>,
    param: Seq<char>,
    k: nat,
    s: State,
    depth: nat,
)
    requires
        counts(rules.numbers, bits, limit),
        2 <= limit,
        k <= limit,
        fibonacci(k) <= limit,
        names_a_function(name),
        param != name,
        s.deleted.len() == 0,
        s.variables.contains_key(name),
        s.variables[name] == fibonacci_function(name, param, bits(1), bits(2)),
        depth >= 3 * k + 2,
    ensures
        call_outcome(
            rules,
            s.variables[name],
            seq![Value::Symbol(name), Value::Number(bits(k))],
            s,
            depth,
        ) == done(Value::Number(bits(fibonacci(k))), s),
        literal_outcome(
            rules,
            call_on(name, Value::Number(bits(k))),
            s,
            depth + 1,
        ) == done(Value::Number(bits(fibonacci(k))), s),
{
    lemma_number(rules, bits(k), s, depth);
    lemma_fibonacci_call(rules, bits, limit, name, param, Value::Number(bits(k)), k, s, depth);
    assert(call_on(name, Value::Number(bits(k)))->List_0 =~= seq![
        Value::Symbol(name),
        Value::Number(bits(k)),
    ]);
}

/// The first eleven Fibonacci numbers.
pub proof fn law_small_fibonacci_numbers()
    ensures
        fibonacci(0) == 0,
        fibonacci(1) == 1,
        fibonacci(2) == 1,
        fibonacci(3) == 2,
        fibonacci(4) == 3,
        fibonacci(5) == 5,
        fibonacci(6) == 8,
        fibonacci(7) == 13,
        fibonacci(8) == 21,
        fibonacci(9) == 34,
        fibonacci(10) == 55,
{
    reveal_with_fuel(fibonacci, 11);
}

} // verus!
