use liwb::lexer::{lexer, Token};

fn read_number(text: String) -> Option<u64> {
    text.parse::<f64>().ok().map(f64::to_bits)
}

fn lex(source: &str) -> Vec<Token> {
    lexer(source, &read_number)
}

fn number(value: f64) -> Token {
    Token::Number(value.to_bits())
}

fn symbol(name: &str) -> Token {
    Token::Symbol(name.to_string())
}

#[test]
fn empty_source_returns_empty_vector() {
    let source = "";
    assert_eq!(lex(source), vec![]);
}

#[test]
fn lexer_tests_basic_arithmetic_operation() {
    let source = "(+ 1 2 (- 3 (* 4 ( / 5 6))))";
    assert_eq!(
        lex(source),
        vec![
            Token::Lparen,
            symbol("+"),
            number(1.0),
            number(2.0),
            Token::Lparen,
            symbol("-"),
            number(3.0),
            Token::Lparen,
            symbol("*"),
            number(4.0),
            Token::Lparen,
            symbol("/"),
            number(5.0),
            number(6.0),
            Token::Rparen,
            Token::Rparen,
            Token::Rparen,
            Token::Rparen,
        ]
    );
}

#[test]
fn arithmetic_operation_with_multiple_parameters() {
    let source = "(+ 1 2 3 4 5 (+ 6 7 8 9))";
    assert_eq!(
        lex(source),
        vec![
            Token::Lparen,
            symbol("+"),
            number(1.0),
            number(2.0),
            number(3.0),
            number(4.0),
            number(5.0),
            Token::Lparen,
            symbol("+"),
            number(6.0),
            number(7.0),
            number(8.0),
            number(9.0),
            Token::Rparen,
            Token::Rparen,
        ]
    );
}

#[test]
fn variable_definition() {
    let source = "(define pi (/ 22 7))";
    assert_eq!(
        lex(source),
        vec![
            Token::Lparen,
            symbol("define"),
            symbol("pi"),
            Token::Lparen,
            symbol("/"),
            number(22.0),
            number(7.0),
            Token::Rparen,
            Token::Rparen,
        ]
    );
}

#[test]
fn brackets_quotes_and_white_space() {
    assert_eq!(
        lex("[a\t\"b c\"\n]'x"),
        vec![
            Token::LBracket,
            symbol("a"),
            symbol("\"b c\""),
            Token::RBracket,
            symbol("x"),
        ]
    );
}

#[test]
fn a_lexeme_that_reads_as_a_number_is_a_number() {
    assert_eq!(lex("-3 1e2 .5 x1"), vec![number(-3.0), number(100.0), number(0.5), symbol("x1")]);
}

#[test]
fn white_space_of_every_script_separates_lexemes() {
    assert_eq!(lex("a\u{a0}b\u{2003}c\u{3000}d\r\ne"), vec![
        symbol("a"),
        symbol("b"),
        symbol("c"),
        symbol("d"),
        symbol("e"),
    ]);
}

#[test]
fn a_quote_without_its_partner_is_passed_over() {
    assert_eq!(lex("(a \"b c)"), vec![
        Token::Lparen,
        symbol("a"),
        symbol("b"),
        symbol("c"),
        Token::Rparen,
    ]);
    assert_eq!(lex("\"a (b\" c"), vec![symbol("\"a (b\""), symbol("c")]);
}

fn no_number(_text: String) -> Option<u64> {
    None
}

/// The texts of the lexemes that the lexer finds.
fn lexemes(source: &str) -> Vec<String> {
    lexer(source, &no_number)
        .into_iter()
        .map(|token| match token {
            Token::Symbol(text) => text,
            Token::Lparen => "(".to_string(),
            Token::Rparen => ")".to_string(),
            Token::LBracket => "[".to_string(),
            Token::RBracket => "]".to_string(),
            Token::Number(_) => unreachable!(),
        })
        .collect()
}

fn is_white_space(c: char) -> bool {
    let point = c as u32;
    (0x09..=0x0d).contains(&point)
        || point == 0x20
        || point == 0x85
        || point == 0xa0
        || point == 0x1680
        || (0x2000..=0x200a).contains(&point)
        || point == 0x2028
        || point == 0x2029
        || point == 0x202f
        || point == 0x205f
        || point == 0x3000
}

fn is_bracket(c: char) -> bool {
    c == '(' || c == ')' || c == '[' || c == ']'
}

fn in_run(c: char) -> bool {
    !is_white_space(c) && !is_bracket(c) && c != '"' && c != '\''
}

/// The lexemes of a text, scanned from left to right.
fn scanned(source: &str) -> Vec<String> {
    let text: Vec<char> = source.chars().collect();
    let mut lexemes = Vec::new();
    let mut from = 0;
    while from < text.len() {
        if in_run(text[from]) {
            let mut end = from + 1;
            while end < text.len() && in_run(text[end]) {
                end += 1;
            }
            lexemes.push(text[from..end].iter().collect());
            from = end;
        } else if is_bracket(text[from]) {
            lexemes.push(text[from..from + 1].iter().collect());
            from += 1;
        } else if text[from] == '"' {
            let mut close = from + 1;
            while close < text.len() && text[close] != '"' {
                close += 1;
            }
            if close < text.len() {
                lexemes.push(text[from..close + 1].iter().collect());
                from = close + 1;
            } else {
                from += 1;
            }
        } else {
            from += 1;
        }
    }
    lexemes
}

#[test]
fn every_character_separates_or_stands_in_a_run() {
    let mut source = String::new();
    let mut expected = Vec::new();
    for point in 0..=0x10ffff_u32 {
        let Some(c) = char::from_u32(point) else {
            continue;
        };
        if c == '"' {
            continue;
        }
        source.push('a');
        source.push(c);
        source.push('b');
        source.push(' ');
        if in_run(c) {
            expected.push(format!("a{c}b"));
        } else {
            expected.push("a".to_string());
            if is_bracket(c) {
                expected.push(c.to_string());
            }
            expected.push("b".to_string());
        }
    }
    assert_eq!(lexemes(&source), expected);
    assert_eq!(scanned(&source), expected);
}

#[test]
fn the_lexemes_are_those_of_a_scan_from_the_left() {
    let alphabet = [
        'a', 'b', '1', '-', '.', '+', '(', ')', '[', ']', '"', '"', '\'', ' ', ' ', '\n', '\t',
        '\u{a0}', '\u{2028}', '\u{85}', 'é', '€', '\u{10348}', '\\', '\r', '\u{b}', '\u{1c}',
        '\u{200b}', '\u{feff}',
    ];
    let mut state: u64 = 0x2545_f491_4f6c_dd1d;
    let mut next = move || {
        state ^= state << 13;
        state ^= state >> 7;
        state ^= state << 17;
        state
    };
    for _ in 0..3000 {
        let length = (next() % 24) as usize;
        let source: String =
            (0..length).map(|_| alphabet[(next() % alphabet.len() as u64) as usize]).collect();
        assert_eq!(lexemes(&source), scanned(&source), "{source:?}");
    }
}

#[test]
fn lexemes_of_texts_with_quotes() {
    assert_eq!(lexemes("\"\""), vec!["\"\""]);
    assert_eq!(lexemes("\""), Vec::<String>::new());
    assert_eq!(lexemes("a\"b\"c"), vec!["a", "\"b\"", "c"]);
    assert_eq!(lexemes("\"a\nb\""), vec!["\"a\nb\""]);
    assert_eq!(lexemes("\"a\"\"b"), vec!["\"a\"", "b"]);
    assert_eq!(lexemes("\"a\" \"b\" \""), vec!["\"a\"", "\"b\""]);
    assert_eq!(lexemes("'a'b"), vec!["a", "b"]);
    assert_eq!(lexemes("([)]"), vec!["(", "[", ")", "]"]);
}
