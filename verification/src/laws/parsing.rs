//! What the lexer and the parser build.

use vstd::prelude::*;
use crate::lexer::{
    TokenView, in_run, is_bracket, is_white_space, lexemes_from, lexemes_of, next_quote, run_end,
};
use crate::literals::Value;
use crate::parser::{atom_of, form_at, forms_at, items_at, program_of};

verus! {

/// Whether a value is a tree as the parser builds them: no list in it is
/// empty.
pub open spec fn well_formed(v: Value) -> bool
    decreases v,
{
    match v {
        Value::List(items) => items.len() > 0 && forall|i: int|
            0 <= i < items.len() ==> well_formed(#[trigger] items[i]),
        Value::Vector(items) => forall|i: int|
            0 <= i < items.len() ==> well_formed(#[trigger] items[i]),
        Value::Function { body, .. } => well_formed(*body),
        _ => true,
    }
}

/// Whether each of some values is well formed.
pub open spec fn all_well_formed(items: Seq<Value>) -> bool {
    forall|i: int| 0 <= i < items.len() ==> well_formed(#[trigger] items[i])
}

proof fn lemma_form_is_well_formed(tokens: Seq<TokenView>, at: nat)
    ensures
        match form_at(tokens, at) {
            Ok((v, end)) => well_formed(v) && at < end < tokens.len(),
            Err(_) => true,
        },
    decreases tokens.len() - at, 0nat,
{
    if at < tokens.len() && (tokens[at as int] is Lparen || tokens[at as int] is LBracket) {
        lemma_items_are_well_formed(tokens, at + 1, Seq::empty());
    }
}

proof fn lemma_items_are_well_formed(tokens: Seq<TokenView>, at: nat, items: Seq<Value>)
    requires
        all_well_formed(items),
    ensures
        match items_at(tokens, at, items) {
            Ok((all, end)) => all_well_formed(all) && at <= end < tokens.len(),
            Err(_) => true,
        },
    decreases tokens.len() - at, 1nat,
{
    if at < tokens.len() {
        match tokens[at as int] {
            TokenView::Symbol(text) => {
                match atom_of(text) {
                    Ok(v) => {
                        lemma_items_are_well_formed(tokens, at + 1, items.push(v));
                    },
                    Err(_) => {},
                }
            },
            TokenView::Number(bits) => {
                lemma_items_are_well_formed(tokens, at + 1, items.push(Value::Number(bits)));
            },
            TokenView::Lparen => {
                lemma_form_is_well_formed(tokens, at);
                match form_at(tokens, at) {
                    Ok((v, end)) => {
                        lemma_items_are_well_formed(tokens, end + 1, items.push(v));
                    },
                    Err(_) => {},
                }
            },
            TokenView::LBracket => {
                lemma_form_is_well_formed(tokens, at);
                match form_at(tokens, at) {
                    Ok((v, end)) => {
                        let inner = match v {
                            Value::List(inner) => inner,
                            _ => Seq::empty(),
                        };
                        lemma_items_are_well_formed(
                            tokens,
                            end + 1,
                            items.push(Value::Vector(inner)),
                        );
                    },
                    Err(_) => {},
                }
            },
            _ => {},
        }
    }
}

proof fn lemma_forms_are_well_formed(tokens: Seq<TokenView>, at: nat, forms: Seq<Value>)
    requires
        all_well_formed(forms),
    ensures
        match forms_at(tokens, at, forms) {
            Ok(all) => all_well_formed(all),
            Err(_) => true,
        },
    decreases tokens.len() - at,
{
    if at < tokens.len() {
        lemma_form_is_well_formed(tokens, at);
        match form_at(tokens, at) {
            Ok((v, end)) => {
                lemma_forms_are_well_formed(tokens, end + 1, forms.push(v));
            },
            Err(_) => {},
        }
    }
}

/// The forms of a parsed program are well formed: the parser builds no
/// empty list. A form without items is `Void`.
pub proof fn law_parsed_forms_are_well_formed(tokens: Seq<TokenView>)
    ensures
        match program_of(tokens) {
            Ok(forms) => all_well_formed(forms),
            Err(_) => true,
        },
{
    if tokens.len() > 0 {
        lemma_forms_are_well_formed(tokens, 0, Seq::empty());
    }
}

/// A form ends after it starts and within the tokens.
pub proof fn law_form_ends_within_the_tokens(tokens: Seq<TokenView>, at: nat)
    ensures
        match form_at(tokens, at) {
            Ok((_, end)) => at < end < tokens.len(),
            Err(_) => true,
        },
{
    lemma_form_is_well_formed(tokens, at);
}

/// Whether a text is a lexeme: a run of characters that can stand in one, a
/// parenthesis or bracket alone, or a text between two double quotes that
/// holds no other double quote.
pub open spec fn is_lexeme(text: Seq<char>) -> bool {
    ||| text.len() >= 1 && forall|i: int| 0 <= i < text.len() ==> in_run(#[trigger] text[i])
    ||| text.len() == 1 && is_bracket(text[0])
    ||| text.len() >= 2 && text[0] == '"' && text[text.len() - 1] == '"' && forall|i: int|
        0 < i < text.len() - 1 ==> #[trigger] text[i] != '"'
}

proof fn lemma_run_holds_run_characters(text: Seq<char>, from: nat)
    requires
        from <= text.len(),
    ensures
        from <= run_end(text, from) <= text.len(),
        forall|i: int| from <= i < run_end(text, from) ==> in_run(#[trigger] text[i]),
    decreases text.len() - from,
{
    if from < text.len() && in_run(text[from as int]) {
        lemma_run_holds_run_characters(text, from + 1);
    }
}

proof fn lemma_no_quote_before_the_next(text: Seq<char>, from: nat)
    requires
        from <= text.len(),
    ensures
        from <= next_quote(text, from) <= text.len(),
        next_quote(text, from) < text.len() ==> text[next_quote(text, from) as int] == '"',
        forall|i: int| from <= i < next_quote(text, from) ==> #[trigger] text[i] != '"',
    decreases text.len() - from,
{
    if from < text.len() && text[from as int] != '"' {
        lemma_no_quote_before_the_next(text, from + 1);
    }
}

proof fn lemma_one_more_lexeme(first: Seq<char>, rest: Seq<Seq<char>>)
    requires
        is_lexeme(first),
        forall|k: int| 0 <= k < rest.len() ==> is_lexeme(#[trigger] rest[k]),
    ensures
        forall|k: int|
            0 <= k < (seq![first] + rest).len() ==> is_lexeme(#[trigger] (seq![first] + rest)[k]),
{
    assert forall|k: int| 0 <= k < (seq![first] + rest).len() implies is_lexeme(
        #[trigger] (seq![first] + rest)[k],
    ) by {
        if k > 0 {
            assert((seq![first] + rest)[k] == rest[k - 1]);
        }
    }
}

proof fn lemma_lexemes_from(text: Seq<char>, from: nat)
    requires
        from <= text.len(),
    ensures
        forall|k: int|
            0 <= k < lexemes_from(text, from).len() ==> is_lexeme(
                #[trigger] lexemes_from(text, from)[k],
            ),
    decreases text.len() - from,
{
    if from < text.len() {
        if in_run(text[from as int]) {
            lemma_run_holds_run_characters(text, from + 1);
            let end = run_end(text, from + 1);
            let first = text.subrange(from as int, end as int);
            assert forall|i: int| 0 <= i < first.len() implies in_run(#[trigger] first[i]) by {
                assert(first[i] == text[from + i]);
            }
            assert(is_lexeme(first));
            lemma_lexemes_from(text, end);
            lemma_one_more_lexeme(first, lexemes_from(text, end));
        } else if is_bracket(text[from as int]) {
            let first = text.subrange(from as int, from as int + 1);
            assert(is_lexeme(first));
            lemma_lexemes_from(text, from + 1);
            lemma_one_more_lexeme(first, lexemes_from(text, from + 1));
        } else if text[from as int] == '"' && next_quote(text, from + 1) < text.len() {
            lemma_no_quote_before_the_next(text, from + 1);
            let close = next_quote(text, from + 1);
            let first = text.subrange(from as int, close as int + 1);
            assert forall|i: int| 0 < i < first.len() - 1 implies #[trigger] first[i] != '"' by {
                assert(first[i] == text[from + i]);
            }
            assert(is_lexeme(first));
            lemma_lexemes_from(text, close + 1);
            lemma_one_more_lexeme(first, lexemes_from(text, close + 1));
        } else {
            lemma_lexemes_from(text, from + 1);
        }
    }
}

/// Every lexeme of a source text is a run, a parenthesis or bracket, or a
/// quoted text. None is empty, and only a quoted one holds white space.
pub proof fn law_lexemes_are_runs_brackets_or_quoted(source: Seq<char>)
    ensures
        forall|k: int|
            0 <= k < lexemes_of(source).len() ==> is_lexeme(#[trigger] lexemes_of(source)[k]),
{
    lemma_lexemes_from(source, 0);
}

/// A source text of white space alone has no lexeme.
pub proof fn law_white_space_has_no_lexeme(source: Seq<char>, from: nat)
    requires
        forall|i: int| 0 <= i < source.len() ==> is_white_space(#[trigger] source[i]),
    ensures
        lexemes_from(source, from) == Seq::<Seq<char>>::empty(),
    decreases source.len() - from,
{
    if from < source.len() {
        assert(is_white_space(source[from as int]));
        law_white_space_has_no_lexeme(source, from + 1);
    }
}

} // verus!
