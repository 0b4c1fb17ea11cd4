//! The value model: the tree that the parser produces and the evaluator
//! consumes, together with its mathematical view.

use vstd::prelude::*;

verus! {

/// The four arithmetic operators.
#[derive(Debug, Clone, Copy, PartialEq, Eq, PartialOrd, Structural)]
pub enum MathOperators {
    Add,
    Subtract,
    Multiply,
    Divide,
}

/// The relational operators.
#[derive(Debug, Clone, Copy, PartialEq, Eq, PartialOrd, Structural)]
pub enum Operator {
    Equal,
    LessThan,
    BiggerThan,
    LessOrEqualThan,
    BiggerOrEqualThan,
    NotEqual,
}

/// A node of the expression tree, and also the result of evaluating one.
///
/// A `Number` holds the bit pattern of an IEEE-754 binary64 value.
#[derive(Debug)]
pub enum Literal {
    Void,
    List(Vec<Literal>),
    Vector(Vec<Literal>),
    Number(u64),
    Symbol(String),
    String(String),
    MathOperator(MathOperators),
    Boolean(bool),
    BinaryOperator(Operator),
    If,
    Function { name: String, args: Vec<String>, body: Box<Literal> },
}

/// The mathematical view of a [`Literal`].
pub enum Value {
    Void,
    List(Seq<Value>),
    Vector(Seq<Value>),
    Number(u64),
    Symbol(Seq<char>),
    String(Seq<char>),
    MathOperator(MathOperators),
    Boolean(bool),
    BinaryOperator(Operator),
    If,
    Function { name: Seq<char>, args: Seq<Seq<char>>, body: Box<Value> },
}

impl Literal {
    /// The value that this literal stands for.
    pub open spec fn model(&self) -> Value
        decreases self,
    {
        match self {
            Literal::Void => Value::Void,
            Literal::List(items) => Value::List(
                Seq::new(
                    items@.len(),
                    |i: int|
                        if 0 <= i < items@.len() {
                            items@[i].model()
                        } else {
                            Value::Void
                        },
                ),
            ),
            Literal::Vector(items) => Value::Vector(
                Seq::new(
                    items@.len(),
                    |i: int|
                        if 0 <= i < items@.len() {
                            items@[i].model()
                        } else {
                            Value::Void
                        },
                ),
            ),
            Literal::Number(bits) => Value::Number(*bits),
            Literal::Symbol(name) => Value::Symbol(name@),
            Literal::String(text) => Value::String(text@),
            Literal::MathOperator(op) => Value::MathOperator(*op),
            Literal::Boolean(b) => Value::Boolean(*b),
            Literal::BinaryOperator(op) => Value::BinaryOperator(*op),
            Literal::If => Value::If,
            Literal::Function { name, args, body } => Value::Function {
                name: name@,
                args: texts(args@),
                body: Box::new(body.model()),
            },
        }
    }
}

impl View for Literal {
    type V = Value;

    open spec fn view(&self) -> Value {
        self.model()
    }
}

/// The values of a sequence of literals.
pub open spec fn models(items: Seq<Literal>) -> Seq<Value> {
    Seq::new(items.len(), |i: int| items[i]@)
}

/// The character sequences of a sequence of strings.
pub open spec fn texts(items: Seq<String>) -> Seq<Seq<char>> {
    Seq::new(items.len(), |i: int| items[i]@)
}

/// The view of a `List` is the view of its items.
pub proof fn lemma_list_view(items: Vec<Literal>)
    ensures
        Literal::List(items)@ == Value::List(models(items@)),
{
    assert(Literal::List(items)@->List_0 =~= models(items@));
}

/// The view of a `Vector` is the view of its items.
pub proof fn lemma_vector_view(items: Vec<Literal>)
    ensures
        Literal::Vector(items)@ == Value::Vector(models(items@)),
{
    assert(Literal::Vector(items)@->Vector_0 =~= models(items@));
}

/// Adding a literal to a vector adds its value to the values.
pub proof fn lemma_models_push(items: Seq<Literal>, item: Literal)
    ensures
        models(items.push(item)) == models(items).push(item@),
{
    assert(models(items.push(item)) =~= models(items).push(item@));
}

/// Adding a string to a vector adds its text to the texts.
pub proof fn lemma_texts_push(items: Seq<String>, item: String)
    ensures
        texts(items.push(item)) == texts(items).push(item@),
{
    assert(texts(items.push(item)) =~= texts(items).push(item@));
}

/// Copies a vector of strings.
pub fn copy_texts(items: &Vec<String>) -> (copy: Vec<String>)
    ensures
        texts(copy@) == texts(items@),
{
    let mut copy: Vec<String> = Vec::new();
    let mut i: usize = 0;
    while i < items.len()
        invariant
            i <= items.len(),
            copy.len() == i,
            forall|j: int| 0 <= j < i ==> copy@[j]@ == items@[j]@,
        decreases items.len() - i,
    {
        copy.push(items[i].clone());
        i += 1;
    }
    assert(texts(copy@) =~= texts(items@));
    copy
}

/// Copies a vector of literals, item by item.
pub fn copy_items(items: &Vec<Literal>) -> (copy: Vec<Literal>)
    ensures
        models(copy@) == models(items@),
    decreases items,
{
    let mut copy: Vec<Literal> = Vec::new();
    let mut i: usize = 0;
    while i < items.len()
        invariant
            i <= items.len(),
            copy.len() == i,
            forall|j: int| 0 <= j < i ==> copy@[j]@ == items@[j]@,
        decreases items.len() - i,
    {
        let item = copy_literal(&items[i]);
        copy.push(item);
        i += 1;
    }
    assert(models(copy@) =~= models(items@));
    copy
}

/// Copies a literal with everything below it.
pub fn copy_literal(literal: &Literal) -> (copy: Literal)
    ensures
        copy@ == literal@,
    decreases literal,
{
    match literal {
        Literal::Void => Literal::Void,
        Literal::List(items) => {
            let copy = copy_items(items);
            proof {
                lemma_list_view(copy);
                lemma_list_view(*items);
            }
            Literal::List(copy)
        },
        Literal::Vector(items) => {
            let copy = copy_items(items);
            proof {
                lemma_vector_view(copy);
                lemma_vector_view(*items);
            }
            Literal::Vector(copy)
        },
        Literal::Number(bits) => Literal::Number(*bits),
        Literal::Symbol(name) => Literal::Symbol(name.clone()),
        Literal::String(text) => Literal::String(text.clone()),
        Literal::MathOperator(op) => Literal::MathOperator(*op),
        Literal::Boolean(b) => Literal::Boolean(*b),
        Literal::BinaryOperator(op) => Literal::BinaryOperator(*op),
        Literal::If => Literal::If,
        Literal::Function { name, args, body } => {
            let body_copy = copy_literal(body);
            let args_copy = copy_texts(args);
            Literal::Function { name: name.clone(), args: args_copy, body: Box::new(body_copy) }
        },
    }
}

impl Clone for Literal {
    fn clone(&self) -> (copy: Self)
        ensures
            copy@ == self@,
    {
        copy_literal(self)
    }
}

} // verus!
