//! The text of a value, as `str` and `print` produce it.

use vstd::prelude::*;
use vstd::string::StringExecFns;
use vstd::string::StrSliceExecFns;
use crate::host::{Calculation, Host, Numbers};
use crate::literals::{Literal, Value, lemma_vector_view, models};

verus! {

/// The character that an escaped character stands for.
pub open spec fn escape_of(c: char) -> char {
    if c == 'n' {
        '\n'
    } else if c == 't' {
        '\t'
    } else if c == 'r' {
        '\r'
    } else {
        c
    }
}

/// The text from position `from` on with its escapes resolved: a backslash
/// and the character after it become the character that the escape stands
/// for. A backslash at the very end stays.
pub open spec fn unescaped(text: Seq<char>, from: nat) -> Seq<char>
    decreases text.len() - from,
{
    if from >= text.len() {
        Seq::empty()
    } else if text[from as int] == '\\' && from + 1 < text.len() {
        seq![escape_of(text[from as int + 1])] + unescaped(text, from + 2)
    } else {
        seq![text[from as int]] + unescaped(text, from + 1)
    }
}

/// What an escape is replaced by: the text after the backslash, or the
/// character that it stands for where that text is one character.
pub open spec fn escape_replaced(escaped: Seq<char>) -> Seq<char> {
    if escaped.len() == 1 {
        seq![escape_of(escaped[0])]
    } else {
        escaped
    }
}

/// The replacement for an escape, given the text after the backslash.
pub fn escape_replacement(escaped: &str) -> (replacement: String)
    ensures
        replacement@ == escape_replaced(escaped@),
{
    if escaped.unicode_len() != 1 {
        return String::from_str(escaped);
    }
    let c = escaped.get_char(0);
    proof {
        reveal_strlit("\n");
        reveal_strlit("\t");
        reveal_strlit("\r");
    }
    if c == 'n' {
        let replacement = String::from_str("\n");
        assert(replacement@ =~= seq!['\n']);
        replacement
    } else if c == 't' {
        let replacement = String::from_str("\t");
        assert(replacement@ =~= seq!['\t']);
        replacement
    } else if c == 'r' {
        let replacement = String::from_str("\r");
        assert(replacement@ =~= seq!['\r']);
        replacement
    } else {
        let replacement = String::from_str(escaped);
        assert(replacement@ =~= seq![c]);
        replacement
    }
}

/// Resolves the escapes of a text with `regex::Regex::replace_all`.
///
/// The pattern is a backslash followed by any one character, line breaks
/// included; it is a valid pattern, so compiling it does not fail.
/// `replace_all` replaces the matches from left to right, none overlapping
/// another, and copies the text between them. Each match is replaced by
/// what [`escape_replacement`] gives for the character after the backslash.
/// The contract states the text that results.
#[verifier::external_body]
fn replace_escapes(text: &str) -> (replaced: String)
    ensures
        replaced@ == unescaped(text@, 0),
{
    regex::Regex::new(r"(?s)\\(.)")
        .unwrap()
        .replace_all(text, |found: &regex::Captures| escape_replacement(&found[1]))
        .to_string()
}

/// Resolves the escapes of a text.
pub fn unescape(text: &str) -> (replaced: String)
    ensures
        replaced@ == unescaped(text@, 0),
{
    replace_escapes(text)
}

/// The text of a value: a number as the host renders it, a boolean as
/// `true` or `false`, a string or symbol as it is, a vector as its items in
/// brackets, a function by its name.
pub open spec fn rendered(numbers: Numbers, v: Value) -> Seq<char>
    decreases v,
{
    match v {
        Value::Number(bits) => (numbers.render)(bits),
        Value::Boolean(b) => if b {
            "true"@
        } else {
            "false"@
        },
        Value::String(text) => text,
        Value::Symbol(text) => text,
        Value::Vector(items) => "[ "@ + rendered_items(numbers, items).flatten() + " ]"@,
        Value::Function { name, .. } => "(liwb function#"@ + name + ")"@,
        _ => "()"@,
    }
}

/// The texts of the items of a vector as they stand between its brackets:
/// each item rendered, with a space after it.
pub open spec fn rendered_items(numbers: Numbers, items: Seq<Value>) -> Seq<Seq<char>>
    decreases items,
{
    Seq::new(
        items.len(),
        |i: int|
            if 0 <= i < items.len() {
                rendered(numbers, items[i]) + " "@
            } else {
                Seq::empty()
            },
    )
}

impl Literal {
    /// The text of this literal. See [`rendered`].
    pub fn render<C: Fn(Calculation) -> u64, T: Fn(u64) -> i64, R: Fn(u64) -> String>(
        &self,
        host: &Host<C, T, R>,
    ) -> (text: String)
        requires
            host.well_formed(),
        ensures
            text@ == rendered(host.numbers(), self@),
        decreases self,
    {
        match self {
            Literal::Number(bits) => host.render(*bits),
            Literal::Boolean(b) => if *b {
                String::from_str("true")
            } else {
                String::from_str("false")
            },
            Literal::String(text) => text.clone(),
            Literal::Symbol(text) => text.clone(),
            Literal::Vector(items) => {
                let mut text = String::from_str("[ ");
                let mut i: usize = 0;
                let ghost pieces = rendered_items(host.numbers(), models(items@));
                proof {
                    lemma_vector_view(*items);
                    assert(pieces.take(0) =~= Seq::<Seq<char>>::empty());
                    assert("[ "@ + pieces.take(0).flatten() =~= "[ "@);
                }
                while i < items.len()
                    invariant
                        host.well_formed(),
                        i <= items.len(),
                        decreases_to!(self => items),
                        pieces == rendered_items(host.numbers(), models(items@)),
                        text@ == "[ "@ + pieces.take(i as int).flatten(),
                    decreases items.len() - i,
                {
                    let item = items[i].render(host);
                    proof {
                        assert(models(items@)[i as int] == items@[i as int]@);
                        assert(pieces.take(i as int + 1) =~= pieces.take(i as int).push(
                            item@ + " "@,
                        ));
                        pieces.take(i as int).lemma_flatten_push(item@ + " "@);
                        assert("[ "@ + pieces.take(i as int + 1).flatten() =~= "[ "@ + pieces.take(
                            i as int,
                        ).flatten() + item@ + " "@);
                    }
                    text.append(item.as_str());
                    text.append(" ");
                    i += 1;
                }
                assert(pieces.take(items.len() as int) =~= pieces);
                text.append(" ]");
                text
            },
            Literal::Function { name, .. } => {
                let mut text = String::from_str("(liwb function#");
                text.append(name.as_str());
                text.append(")");
                text
            },
            _ => String::from_str("()"),
        }
    }
}

} // verus!
