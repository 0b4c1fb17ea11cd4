//! The parser: from tokens to the expression trees of a program.

use vstd::prelude::*;
use vstd::string::StringExecFns;
use vstd::string::StrSliceExecFns;
use crate::comparison::same_text;
use crate::lexer::{Token, TokenView, token_views};
use crate::literals::{
    Literal, MathOperators, Operator, Value, lemma_list_view, lemma_models_push, lemma_vector_view,
    models,
};

verus! {

/// Why a sequence of tokens is no program.
#[derive(Debug, Clone, Copy, PartialEq, Eq, Structural)]
pub enum ParseError {
    /// A form does not start with an opening parenthesis or bracket.
    ExpectedOpening,
    /// A symbol holds a double quote, but not exactly two of them.
    InvalidString,
    /// The tokens end inside a form.
    Unclosed,
}

/// The double quotes among characters.
pub open spec fn quotes() -> spec_fn(char) -> bool {
    |c: char| c == '"'
}

/// The characters that are no double quotes.
pub open spec fn no_quotes() -> spec_fn(char) -> bool {
    |c: char| c != '"'
}

/// The value that a symbol token stands for: an operator, a boolean or
/// `If`; else a symbol where it holds no double quote, and a string where
/// it holds two of them, which are taken out.
pub open spec fn atom_of(text: Seq<char>) -> Result<Value, ParseError> {
    if text == "+"@ {
        Ok(Value::MathOperator(MathOperators::Add))
    } else if text == "-"@ {
        Ok(Value::MathOperator(MathOperators::Subtract))
    } else if text == "*"@ {
        Ok(Value::MathOperator(MathOperators::Multiply))
    } else if text == "/"@ {
        Ok(Value::MathOperator(MathOperators::Divide))
    } else if text == "="@ {
        Ok(Value::BinaryOperator(Operator::Equal))
    } else if text == "<"@ {
        Ok(Value::BinaryOperator(Operator::LessThan))
    } else if text == ">"@ {
        Ok(Value::BinaryOperator(Operator::BiggerThan))
    } else if text == "<="@ {
        Ok(Value::BinaryOperator(Operator::LessOrEqualThan))
    } else if text == ">="@ {
        Ok(Value::BinaryOperator(Operator::BiggerOrEqualThan))
    } else if text == "!="@ {
        Ok(Value::BinaryOperator(Operator::NotEqual))
    } else if text == "true"@ {
        Ok(Value::Boolean(true))
    } else if text == "false"@ {
        Ok(Value::Boolean(false))
    } else if text == "if"@ {
        Ok(Value::If)
    } else if text.filter(quotes()).len() == 0 {
        Ok(Value::Symbol(text))
    } else if text.filter(quotes()).len() == 2 {
        Ok(Value::String(text.filter(no_quotes())))
    } else {
        Err(ParseError::InvalidString)
    }
}

/// The form that starts at position `at`, and the position of the token
/// that closes it.
///
/// A form starts with an opening parenthesis or bracket and holds items up
/// to the next closing one. Without items it is `Void`, else the list of
/// its items.
pub open spec fn form_at(tokens: Seq<TokenView>, at: nat) -> Result<(Value, nat), ParseError>
    decreases tokens.len() - at, 0nat,
{
    if at >= tokens.len() {
        Err(ParseError::ExpectedOpening)
    } else if tokens[at as int] is Lparen || tokens[at as int] is LBracket {
        match items_at(tokens, at + 1, Seq::empty()) {
            Ok((items, end)) => Ok(
                (
                    if items.len() == 0 {
                        Value::Void
                    } else {
                        Value::List(items)
                    },
                    end,
                ),
            ),
            Err(e) => Err(e),
        }
    } else {
        Err(ParseError::ExpectedOpening)
    }
}

/// The items of a form from position `at` on, after `items`, and the
/// position of the token that closes the form.
///
/// A symbol token gives what it stands for and a number token its number.
/// An opening parenthesis starts an inner form, which is the item. An
/// opening bracket starts an inner form too, and the item is the vector of
/// the inner form's items.
pub open spec fn items_at(tokens: Seq<TokenView>, at: nat, items: Seq<Value>) -> Result<
    (Seq<Value>, nat),
    ParseError,
>
    decreases tokens.len() - at, 1nat,
{
    if at >= tokens.len() {
        Err(ParseError::Unclosed)
    } else {
        match tokens[at as int] {
            TokenView::Rparen => Ok((items, at)),
            TokenView::RBracket => Ok((items, at)),
            TokenView::Symbol(text) => match atom_of(text) {
                Ok(v) => items_at(tokens, at + 1, items.push(v)),
                Err(e) => Err(e),
            },
            TokenView::Number(bits) => items_at(tokens, at + 1, items.push(Value::Number(bits))),
            TokenView::Lparen => match form_at(tokens, at) {
                Ok((v, end)) => if end < at || end >= tokens.len() {
                    Err(ParseError::Unclosed)
                } else {
                    items_at(tokens, end + 1, items.push(v))
                },
                Err(e) => Err(e),
            },
            TokenView::LBracket => match form_at(tokens, at) {
                Ok((v, end)) => if end < at || end >= tokens.len() {
                    Err(ParseError::Unclosed)
                } else {
                    items_at(
                        tokens,
                        end + 1,
                        items.push(
                            Value::Vector(
                                match v {
                                    Value::List(inner) => inner,
                                    _ => Seq::empty(),
                                },
                            ),
                        ),
                    )
                },
                Err(e) => Err(e),
            },
        }
    }
}

/// The forms from position `at` on, one after another, after `forms`.
pub open spec fn forms_at(tokens: Seq<TokenView>, at: nat, forms: Seq<Value>) -> Result<
    Seq<Value>,
    ParseError,
>
    decreases tokens.len() - at,
{
    if at >= tokens.len() {
        Ok(forms)
    } else {
        match form_at(tokens, at) {
            Ok((v, end)) => if end < at || end >= tokens.len() {
                Err(ParseError::Unclosed)
            } else {
                forms_at(tokens, end + 1, forms.push(v))
            },
            Err(e) => Err(e),
        }
    }
}

/// The program that a sequence of tokens stands for: its forms; one `Void`
/// where there is no token.
pub open spec fn program_of(tokens: Seq<TokenView>) -> Result<Seq<Value>, ParseError> {
    if tokens.len() == 0 {
        Ok(seq![Value::Void])
    } else {
        forms_at(tokens, 0, Seq::empty())
    }
}

/// The number of double quotes in a text.
fn count_quotes(text: &str) -> (count: usize)
    ensures
        count == text@.filter(quotes()).len(),
{
    let len = text.unicode_len();
    let mut count: usize = 0;
    let mut i: usize = 0;
    proof {
        reveal(Seq::filter);
    }
    while i < len
        invariant
            len == text@.len(),
            i <= len,
            count <= i,
            count == text@.take(i as int).filter(quotes()).len(),
        decreases len - i,
    {
        proof {
            reveal(Seq::filter);
            assert(text@.take(i + 1).drop_last() =~= text@.take(i as int));
        }
        if text.get_char(i) == '"' {
            count += 1;
        }
        i += 1;
    }
    assert(text@.take(len as int) =~= text@);
    count
}

/// A text without its double quotes.
fn strip_quotes(text: &str) -> (stripped: String)
    ensures
        stripped@ == text@.filter(no_quotes()),
{
    let len = text.unicode_len();
    let mut stripped = String::new();
    let mut i: usize = 0;
    proof {
        reveal(Seq::filter);
    }
    while i < len
        invariant
            len == text@.len(),
            i <= len,
            stripped@ == text@.take(i as int).filter(no_quotes()),
        decreases len - i,
    {
        proof {
            reveal(Seq::filter);
            assert(text@.take(i + 1).drop_last() =~= text@.take(i as int));
        }
        if text.get_char(i) != '"' {
            let ghost before = stripped@;
            stripped.append(text.substring_char(i, i + 1));
            assert(stripped@ =~= before.push(text@[i as int]));
        }
        i += 1;
    }
    assert(text@.take(len as int) =~= text@);
    stripped
}

/// The literal that a symbol token stands for. See [`atom_of`].
pub fn parse_atom(text: &String) -> (result: Result<Literal, ParseError>)
    ensures
        match result {
            Ok(literal) => atom_of(text@) == Ok::<Value, ParseError>(literal@),
            Err(e) => atom_of(text@) == Err::<Value, ParseError>(e),
        },
{
    let s = text.as_str();
    if same_text(s, "+") {
        Ok(Literal::MathOperator(MathOperators::Add))
    } else if same_text(s, "-") {
        Ok(Literal::MathOperator(MathOperators::Subtract))
    } else if same_text(s, "*") {
        Ok(Literal::MathOperator(MathOperators::Multiply))
    } else if same_text(s, "/") {
        Ok(Literal::MathOperator(MathOperators::Divide))
    } else if same_text(s, "=") {
        Ok(Literal::BinaryOperator(Operator::Equal))
    } else if same_text(s, "<") {
        Ok(Literal::BinaryOperator(Operator::LessThan))
    } else if same_text(s, ">") {
        Ok(Literal::BinaryOperator(Operator::BiggerThan))
    } else if same_text(s, "<=") {
        Ok(Literal::BinaryOperator(Operator::LessOrEqualThan))
    } else if same_text(s, ">=") {
        Ok(Literal::BinaryOperator(Operator::BiggerOrEqualThan))
    } else if same_text(s, "!=") {
        Ok(Literal::BinaryOperator(Operator::NotEqual))
    } else if same_text(s, "true") {
        Ok(Literal::Boolean(true))
    } else if same_text(s, "false") {
        Ok(Literal::Boolean(false))
    } else if same_text(s, "if") {
        Ok(Literal::If)
    } else {
        let quotes = count_quotes(s);
        if quotes == 0 {
            Ok(Literal::Symbol(text.clone()))
        } else if quotes == 2 {
            Ok(Literal::String(strip_quotes(s)))
        } else {
            Err(ParseError::InvalidString)
        }
    }
}

/// The view of a parsed form and the position where it ends.
pub open spec fn parsed_of(result: Result<(Literal, usize), ParseError>) -> Result<
    (Value, nat),
    ParseError,
> {
    match result {
        Ok((literal, end)) => Ok((literal@, end as nat)),
        Err(e) => Err(e),
    }
}

/// The form that holds the given items: `Void` without items, else their
/// list.
fn form_of(items: Vec<Literal>) -> (form: Literal)
    ensures
        form@ == if models(items@).len() == 0 {
            Value::Void
        } else {
            Value::List(models(items@))
        },
{
    if items.len() == 0 {
        Literal::Void
    } else {
        proof {
            lemma_list_view(items);
        }
        Literal::List(items)
    }
}

/// Parses the form that starts at position `at`. See [`form_at`].
pub fn parse_tokens(tokens: &Vec<Token>, at: usize) -> (result: Result<
    (Literal, usize),
    ParseError,
>)
    ensures
        parsed_of(result) == form_at(token_views(tokens@), at as nat),
        match result {
            Ok((_, end)) => at < end < tokens.len(),
            Err(_) => true,
        },
    decreases tokens.len() - at,
{
    let ghost views = token_views(tokens@);
    if at >= tokens.len() {
        return Err(ParseError::ExpectedOpening);
    }
    assert(views[at as int] == tokens@[at as int]@);
    match &tokens[at] {
        Token::Lparen => {},
        Token::LBracket => {},
        _ => {
            return Err(ParseError::ExpectedOpening);
        },
    }
    let mut items: Vec<Literal> = Vec::new();
    let mut i: usize = at + 1;
    assert(models(items@) =~= Seq::<Value>::empty());
    loop
        invariant
            views == token_views(tokens@),
            at < i <= tokens.len(),
            at < tokens.len(),
            views[at as int] is Lparen || views[at as int] is LBracket,
            items_at(views, i as nat, models(items@)) == items_at(
                views,
                (at + 1) as nat,
                Seq::empty(),
            ),
        decreases tokens.len() - i,
    {
        if i >= tokens.len() {
            return Err(ParseError::Unclosed);
        }
        assert(views[i as int] == tokens@[i as int]@);
        match &tokens[i] {
            Token::Rparen => {
                return Ok((form_of(items), i));
            },
            Token::RBracket => {
                return Ok((form_of(items), i));
            },
            Token::Symbol(text) => {
                match parse_atom(text) {
                    Ok(item) => {
                        proof {
                            lemma_models_push(items@, item);
                        }
                        items.push(item);
                    },
                    Err(e) => {
                        return Err(e);
                    },
                }
                i += 1;
            },
            Token::Number(bits) => {
                let item = Literal::Number(*bits);
                proof {
                    lemma_models_push(items@, item);
                }
                items.push(item);
                i += 1;
            },
            Token::Lparen => {
                match parse_tokens(tokens, i) {
                    Ok((item, end)) => {
                        proof {
                            lemma_models_push(items@, item);
                        }
                        items.push(item);
                        i = end + 1;
                    },
                    Err(e) => {
                        return Err(e);
                    },
                }
            },
            Token::LBracket => {
                match parse_tokens(tokens, i) {
                    Ok((inner, end)) => {
                        let item = match inner {
                            Literal::List(inner_items) => {
                                proof {
                                    lemma_list_view(inner_items);
                                    lemma_vector_view(inner_items);
                                }
                                Literal::Vector(inner_items)
                            },
                            _ => {
                                let empty: Vec<Literal> = Vec::new();
                                proof {
                                    lemma_vector_view(empty);
                                    assert(models(empty@) =~= Seq::<Value>::empty());
                                }
                                Literal::Vector(empty)
                            },
                        };
                        proof {
                            lemma_models_push(items@, item);
                        }
                        items.push(item);
                        i = end + 1;
                    },
                    Err(e) => {
                        return Err(e);
                    },
                }
            },
        }
    }
}

/// The view of a parsed program.
pub open spec fn program_view(result: Result<Vec<Literal>, ParseError>) -> Result<
    Seq<Value>,
    ParseError,
> {
    match result {
        Ok(literals) => Ok(models(literals@)),
        Err(e) => Err(e),
    }
}

/// Parses a sequence of tokens into the forms of a program. See
/// [`program_of`].
pub fn parser(tokens: &Vec<Token>) -> (result: Result<Vec<Literal>, ParseError>)
    ensures
        program_view(result) == program_of(token_views(tokens@)),
{
    let ghost views = token_views(tokens@);
    let mut literals: Vec<Literal> = Vec::new();
    if tokens.len() == 0 {
        literals.push(Literal::Void);
        assert(models(literals@) =~= seq![Value::Void]);
        return Ok(literals);
    }
    let mut i: usize = 0;
    assert(models(literals@) =~= Seq::<Value>::empty());
    while i < tokens.len()
        invariant
            views == token_views(tokens@),
            tokens.len() > 0,
            i <= tokens.len(),
            forms_at(views, i as nat, models(literals@)) == program_of(views),
        decreases tokens.len() - i,
    {
        match parse_tokens(tokens, i) {
            Ok((literal, end)) => {
                proof {
                    lemma_models_push(literals@, literal);
                }
                literals.push(literal);
                i = end + 1;
            },
            Err(e) => {
                return Err(e);
            },
        }
    }
    Ok(literals)
}

} // verus!
