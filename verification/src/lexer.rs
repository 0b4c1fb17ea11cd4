//! The lexer: from source text to tokens.

use vstd::prelude::*;
use crate::comparison::same_text;
use crate::literals::texts;

verus! {

/// A token of the source text. A `Number` holds the bit pattern of an
/// IEEE-754 binary64 value.
#[derive(Debug, PartialEq)]
pub enum Token {
    Symbol(String),
    Number(u64),
    Lparen,
    Rparen,
    LBracket,
    RBracket,
}

/// The mathematical view of a [`Token`].
pub enum TokenView {
    Symbol(Seq<char>),
    Number(u64),
    Lparen,
    Rparen,
    LBracket,
    RBracket,
}

impl View for Token {
    type V = TokenView;

    open spec fn view(&self) -> TokenView {
        match self {
            Token::Symbol(text) => TokenView::Symbol(text@),
            Token::Number(bits) => TokenView::Number(*bits),
            Token::Lparen => TokenView::Lparen,
            Token::Rparen => TokenView::Rparen,
            Token::LBracket => TokenView::LBracket,
            Token::RBracket => TokenView::RBracket,
        }
    }
}

/// The views of a sequence of tokens.
pub open spec fn token_views(tokens: Seq<Token>) -> Seq<TokenView> {
    Seq::new(tokens.len(), |i: int| tokens[i]@)
}

/// White space: the characters that Unicode gives the property White_Space.
pub open spec fn is_white_space(c: char) -> bool {
    let point = c as u32;
    ||| 0x09 <= point <= 0x0d
    ||| point == 0x20
    ||| point == 0x85
    ||| point == 0xa0
    ||| point == 0x1680
    ||| 0x2000 <= point <= 0x200a
    ||| point == 0x2028
    ||| point == 0x2029
    ||| point == 0x202f
    ||| point == 0x205f
    ||| point == 0x3000
}

/// Whether a character is a parenthesis or a bracket.
pub open spec fn is_bracket(c: char) -> bool {
    c == '(' || c == ')' || c == '[' || c == ']'
}

/// Whether a character can stand in a run: it is no white space, no
/// parenthesis or bracket, and no double or single quote.
pub open spec fn in_run(c: char) -> bool {
    !is_white_space(c) && !is_bracket(c) && c != '"' && c != '\''
}

/// The position after the run of characters that starts at `from`.
pub open spec fn run_end(text: Seq<char>, from: nat) -> nat
    decreases text.len() - from,
{
    if from < text.len() && in_run(text[from as int]) {
        run_end(text, from + 1)
    } else {
        from
    }
}

/// The position of the first double quote at or after `from`, or the length
/// of the text where there is none.
pub open spec fn next_quote(text: Seq<char>, from: nat) -> nat
    decreases text.len() - from,
{
    if from < text.len() && text[from as int] != '"' {
        next_quote(text, from + 1)
    } else {
        from
    }
}

/// A run ends at or after its start, and within the text.
pub proof fn lemma_run_end_bounds(text: Seq<char>, from: nat)
    requires
        from <= text.len(),
    ensures
        from <= run_end(text, from) <= text.len(),
    decreases text.len() - from,
{
    if from < text.len() && in_run(text[from as int]) {
        lemma_run_end_bounds(text, from + 1);
    }
}

/// The next quote is at or after the start of the search, and at most at
/// the end of the text.
pub proof fn lemma_next_quote_bounds(text: Seq<char>, from: nat)
    requires
        from <= text.len(),
    ensures
        from <= next_quote(text, from) <= text.len(),
    decreases text.len() - from,
{
    if from < text.len() && text[from as int] != '"' {
        lemma_next_quote_bounds(text, from + 1);
    }
}

/// The lexemes of a text from position `from` on, from left to right.
///
/// At a character that can stand in a run, the lexeme is the longest run
/// from there. At a parenthesis or bracket, it is that character. At a
/// double quote that has another one after it, it is the text from the one
/// to the nearest other, both included. Any other character is passed over:
/// white space, a single quote, and a double quote without another after
/// it.
pub open spec fn lexemes_from(text: Seq<char>, from: nat) -> Seq<Seq<char>>
    decreases text.len() - from,
{
    if from >= text.len() {
        Seq::empty()
    } else if in_run(text[from as int]) {
        proof {
            lemma_run_end_bounds(text, from + 1);
        }
        let end = run_end(text, from + 1);
        seq![text.subrange(from as int, end as int)] + lexemes_from(text, end)
    } else if is_bracket(text[from as int]) {
        seq![text.subrange(from as int, from as int + 1)] + lexemes_from(text, from + 1)
    } else if text[from as int] == '"' && next_quote(text, from + 1) < text.len() {
        proof {
            lemma_next_quote_bounds(text, from + 1);
        }
        let close = next_quote(text, from + 1);
        seq![text.subrange(from as int, close as int + 1)] + lexemes_from(text, close + 1)
    } else {
        lexemes_from(text, from + 1)
    }
}

/// The lexemes of a source text, from left to right.
pub open spec fn lexemes_of(source: Seq<char>) -> Seq<Seq<char>> {
    lexemes_from(source, 0)
}

/// Splits a source text into its lexemes with `regex::Regex::find_iter`.
///
/// The pattern has two alternatives. The first is one or more characters
/// none of which is white space (`\s`, Unicode's White_Space), a bracket, a
/// parenthesis, a double or a single quote. The second is one bracket or
/// parenthesis, or a double quote, any characters that are no double
/// quotes, and a double quote. The pattern is valid, so compiling it does
/// not fail. `find_iter` yields the matches from left to right, none
/// overlapping another: each is the leftmost match at or after the end of
/// the one before, by the first alternative that matches there, and as long
/// as that alternative can make it. The contract states the matched texts
/// ([`lexemes_of`]).
#[verifier::external_body]
fn find_lexemes(source: &str) -> (lexemes: Vec<String>)
    ensures
        texts(lexemes@) == lexemes_of(source@),
{
    regex::Regex::new(r#"[^\s\[\]\(\)"']+|(\[|\]|\(|\)|"[^"]*")"#)
        .unwrap()
        .find_iter(source)
        .map(|found| found.as_str().to_string())
        .collect()
}

/// A function that reads a text as a number: it gives the bit pattern of
/// the number, or nothing where the text is no number. It accepts every
/// text and gives the same for the same text.
pub open spec fn reads_numbers<P: Fn(String) -> Option<u64>>(parse: P) -> bool {
    &&& forall|text: String| call_requires(parse, (text,))
    &&& forall|a: String, b: String, x: Option<u64>, y: Option<u64>|
        a@ == b@ && call_ensures(parse, (a,), x) && call_ensures(parse, (b,), y) ==> x == y
}

/// What `parse` gives for a text.
pub open spec fn number_read<P: Fn(String) -> Option<u64>>(parse: P, text: Seq<char>) -> Option<
    u64,
> {
    (choose|pair: (String, Option<u64>)|
        pair.0@ == text && call_ensures(parse, (pair.0,), pair.1)).1
}

/// The token that a lexeme stands for, given the number that it reads as,
/// if it does: a parenthesis or a bracket, else that number, else a symbol.
pub open spec fn token_of(lexeme: Seq<char>, number: Option<u64>) -> TokenView {
    if lexeme == "("@ {
        TokenView::Lparen
    } else if lexeme == ")"@ {
        TokenView::Rparen
    } else if lexeme == "["@ {
        TokenView::LBracket
    } else if lexeme == "]"@ {
        TokenView::RBracket
    } else {
        match number {
            Some(bits) => TokenView::Number(bits),
            None => TokenView::Symbol(lexeme),
        }
    }
}

/// The tokens that a sequence of lexemes stands for.
pub open spec fn tokens_of<P: Fn(String) -> Option<u64>>(parse: P, lexemes: Seq<Seq<char>>) -> Seq<
    TokenView,
> {
    Seq::new(lexemes.len(), |i: int| token_of(lexemes[i], number_read(parse, lexemes[i])))
}

/// The token that a lexeme stands for.
pub fn classify<P: Fn(String) -> Option<u64>>(lexeme: &String, parse: &P) -> (token: Token)
    requires
        reads_numbers(*parse),
    ensures
        token@ == token_of(lexeme@, number_read(*parse, lexeme@)),
{
    let text = lexeme.as_str();
    if same_text(text, "(") {
        Token::Lparen
    } else if same_text(text, ")") {
        Token::Rparen
    } else if same_text(text, "[") {
        Token::LBracket
    } else if same_text(text, "]") {
        Token::RBracket
    } else {
        let copy = lexeme.clone();
        let number = parse(copy);
        proof {
            let pair = (copy, number);
            assert(pair.0@ == lexeme@ && call_ensures(*parse, (pair.0,), pair.1));
        }
        match number {
            Some(bits) => Token::Number(bits),
            None => Token::Symbol(lexeme.clone()),
        }
    }
}

/// The tokens that a vector of lexemes stands for.
pub fn classify_all<P: Fn(String) -> Option<u64>>(lexemes: &Vec<String>, parse: &P) -> (tokens:
    Vec<Token>)
    requires
        reads_numbers(*parse),
    ensures
        token_views(tokens@) == tokens_of(*parse, texts(lexemes@)),
{
    let mut tokens: Vec<Token> = Vec::new();
    let mut i: usize = 0;
    while i < lexemes.len()
        invariant
            reads_numbers(*parse),
            i <= lexemes.len(),
            tokens.len() == i,
            forall|j: int|
                0 <= j < i ==> tokens@[j]@ == token_of(
                    lexemes@[j]@,
                    number_read(*parse, lexemes@[j]@),
                ),
        decreases lexemes.len() - i,
    {
        let token = classify(&lexemes[i], parse);
        tokens.push(token);
        i += 1;
    }
    assert(token_views(tokens@) =~= tokens_of(*parse, texts(lexemes@)));
    tokens
}

/// Splits a source text into tokens: the tokens that its lexemes stand for,
/// in order.
pub fn lexer<P: Fn(String) -> Option<u64>>(source: &str, parse: &P) -> (tokens: Vec<Token>)
    requires
        reads_numbers(*parse),
    ensures
        token_views(tokens@) == tokens_of(*parse, lexemes_of(source@)),
{
    let lexemes = find_lexemes(source);
    classify_all(&lexemes, parse)
}

} // verus!
