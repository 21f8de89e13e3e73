//! Scenario tests for the tokenizer engine, mirroring a minimal arithmetic
//! lexer: single-character operators, a digits-only number rule, an
//! identifier regex, and whitespace.

use plexer::lexer::{tokenize, LexerResult};
use plexer::matcher::Matcher;
use plexer::predicate::{Digits, Pred};
use plexer::rx::RegexPattern;

const OP_PLUS: usize = 0;
const OP_MINUS: usize = 1;
const OP_STAR: usize = 2;
const OP_SLASH: usize = 3;
const OP_EQ: usize = 4;
const NUMBER: usize = 5;
const IDENTIFIER: usize = 6;
const WHITESPACE: usize = 7;

fn arithmetic_rules() -> Vec<Matcher<Digits>> {
    vec![
        Matcher::Char('+'),
        Matcher::Char('-'),
        Matcher::Char('*'),
        Matcher::Char('/'),
        Matcher::Char('='),
        Matcher::Test(Pred(Digits)),
        Matcher::Re(RegexPattern::new(r"[a-zA-Z_$][a-zA-Z_$0-9]*").unwrap()),
        Matcher::Chars(vec![' ', '\n']),
    ]
}

fn scan(hay: &str) -> Vec<LexerResult> {
    tokenize(arithmetic_rules(), hay).collect_remaining()
}

#[test]
fn arithmetic_statement_tokens() {
    let items = scan("x_4 = 1 + 3 = 2 * 2");
    assert_eq!(items.len(), 17);
    match &items[0] {
        Ok(t) => {
            assert_eq!(t.rule, IDENTIFIER);
            assert_eq!(t.text, "x_4");
        }
        Err(_) => panic!("expected a token"),
    }
    match &items[2] {
        Ok(t) => {
            assert_eq!(t.rule, OP_EQ);
            assert_eq!(t.text, "=");
        }
        Err(_) => panic!("expected a token"),
    }
    match &items[8] {
        Ok(t) => {
            assert_eq!(t.rule, NUMBER);
            assert_eq!(t.text, "3");
        }
        Err(_) => panic!("expected a token"),
    }
    match &items[10] {
        Ok(t) => {
            assert_eq!(t.rule, OP_EQ);
            assert_eq!(t.text, "=");
        }
        Err(_) => panic!("expected a token"),
    }
    match &items[14] {
        Ok(t) => {
            assert_eq!(t.rule, OP_STAR);
            assert_eq!(t.text, "*");
        }
        Err(_) => panic!("expected a token"),
    }
}

#[test]
fn unmatched_character_yields_one_error_and_scan_continues() {
    let hay = "x_4 = (1 + 3)";
    let items = scan(hay);
    let mut errors = 0;
    for item in &items {
        if item.is_err() {
            errors += 1;
        }
    }
    // Exactly the two parentheses are unmatched.
    assert_eq!(errors, 2);
    match &items[4] {
        Err(e) => {
            assert_eq!(e.cursor, 6);
            assert_eq!(e.message(hay), "unexpected character '(' at index 6");
        }
        Ok(_) => panic!("expected an error"),
    }
    // The tokens around the malformed region are still recognized in order.
    match &items[5] {
        Ok(t) => {
            assert_eq!(t.rule, NUMBER);
            assert_eq!(t.text, "1");
        }
        Err(_) => panic!("expected a token"),
    }
    match items.last().unwrap() {
        Err(e) => assert_eq!(e.cursor, 12),
        Ok(_) => panic!("expected an error"),
    }
}

#[test]
fn empty_input_yields_empty_sequence() {
    let items = scan("");
    assert_eq!(items.len(), 0);
}

#[test]
fn lone_unmatched_character_yields_one_error_at_offset_zero() {
    let items = scan("(");
    assert_eq!(items.len(), 1);
    match &items[0] {
        Err(e) => {
            assert_eq!(e.cursor, 0);
            assert_eq!(e.message("("), "unexpected character '(' at index 0");
        }
        Ok(_) => panic!("expected an error"),
    }
}

#[test]
fn repeated_scans_are_deterministic() {
    let first = scan("x_4 = 1 + 3 = 2 * 2");
    let second = scan("x_4 = 1 + 3 = 2 * 2");
    assert_eq!(first.len(), second.len());
    for (a, b) in first.iter().zip(second.iter()) {
        match (a, b) {
            (Ok(x), Ok(y)) => {
                assert_eq!(x.rule, y.rule);
                assert_eq!(x.text, y.text);
            }
            (Err(x), Err(y)) => assert_eq!(x.cursor, y.cursor),
            _ => panic!("the two scans disagree"),
        }
    }
}

#[test]
fn longest_match_beats_earlier_priority() {
    // Both rules match a prefix of "abc": the first matches one character,
    // the second the whole word; the longer, later rule wins.
    let rules: Vec<Matcher<Digits>> = vec![Matcher::Char('a'), Matcher::Lit(String::from("abc"))];
    let mut lex = tokenize(rules, "abc");
    match lex.next().unwrap() {
        Ok(t) => {
            assert_eq!(t.rule, 1);
            assert_eq!(t.text, "abc");
        }
        Err(_) => panic!("expected a token"),
    }
    assert!(lex.next().is_none());
}

#[test]
fn equal_length_ties_break_to_earlier_rule() {
    let rules: Vec<Matcher<Digits>> = vec![
        Matcher::Lit(String::from("ab")),
        Matcher::Lit(String::from("ab")),
    ];
    let mut lex = tokenize(rules, "ab");
    match lex.next().unwrap() {
        Ok(t) => assert_eq!(t.rule, 0),
        Err(_) => panic!("expected a token"),
    }
}

#[test]
fn item_count_is_bounded_by_input_length() {
    let hay: String = std::iter::repeat('a').take(2000).collect();
    let rules: Vec<Matcher<Digits>> = vec![Matcher::Char('a')];
    let mut lex = tokenize(rules, hay.as_str());
    let mut count = 0;
    while let Some(item) = lex.next() {
        assert!(item.is_ok());
        count += 1;
    }
    assert_eq!(count, 2000);
}

#[test]
fn lookahead_window_caps_one_match() {
    // A run of digits longer than the lookahead window is emitted as one
    // window-sized token and then the rest.
    let hay: String = std::iter::repeat('1').take(1500).collect();
    let rules: Vec<Matcher<Digits>> = vec![Matcher::Test(Pred(Digits))];
    let mut lex = tokenize(rules, hay.as_str());
    match lex.next().unwrap() {
        Ok(t) => assert_eq!(t.text.len(), 1024),
        Err(_) => panic!("expected a token"),
    }
    match lex.next().unwrap() {
        Ok(t) => assert_eq!(t.text.len(), 476),
        Err(_) => panic!("expected a token"),
    }
    assert!(lex.next().is_none());
}

#[test]
fn error_message_renders_multi_digit_offsets() {
    let hay = "aaaaaaaaaaaa(";
    let rules: Vec<Matcher<Digits>> = vec![Matcher::Char('a')];
    let mut lex = tokenize(rules, hay);
    let mut last = None;
    while let Some(item) = lex.next() {
        last = Some(item);
    }
    match last.unwrap() {
        Err(e) => {
            assert_eq!(e.cursor, 12);
            assert_eq!(e.message(hay), "unexpected character '(' at index 12");
        }
        Ok(_) => panic!("expected an error"),
    }
}
