//! Behavioral tests for the pattern kinds: chars, literals, sets,
//! predicates and regular expressions, with the derived prefix, suffix and
//! reverse searches.

use plexer::pattern::{Match, Pattern, PatternExt};
use plexer::predicate::{Digits, Pred};
use plexer::rx::RegexPattern;

#[test]
fn match_new_len_as_str() {
    let m = Match::new("three", 1, 4);
    assert_eq!(m.len(), 3);
    assert_eq!(m.as_str(), "hre");
    let m2 = Match::new("it's here not here", 5, 9);
    assert_eq!(m2.as_str(), "here");
    assert_eq!(m2.to_string(), "here");
}

#[test]
fn char_finds_first_occurrence() {
    let hay = "Can you find a needle in a haystack";
    let m = 'n'.find_in(hay).unwrap();
    assert_eq!(m.start, 2);
    assert_eq!(m.end, 3);
    assert!('z'.find_in(hay).is_none());
}

#[test]
fn str_finds_first_occurrence() {
    let hay = "Can you find a needle in a haystack";
    let m = "you".find_in(hay).unwrap();
    assert_eq!(m.start, 4);
    assert_eq!(m.end, 7);
    assert!("ab".find_in("cd").is_none());
    let m2 = "ab".find_in("cabd").unwrap();
    assert_eq!((m2.start, m2.end), (1, 3));
    assert_eq!(m2.as_str(), "ab");
}

#[test]
fn string_finds_like_str() {
    let pat = String::from("needle");
    let m = pat.find_in("a needle in a haystack").unwrap();
    assert_eq!(m.start, 2);
    assert_eq!(m.end, 8);
}

#[test]
fn char_set_first_member_wins() {
    let hay = "Can you find a needle in a haystack";
    let set = vec!['a', 'e', 'i', 'o', 'u'];
    let m = set.find_in(hay).unwrap();
    assert_eq!(m.start, 1);
}

#[test]
fn char_array_first_member_wins() {
    let hay = "Can you find a needle in a haystack";
    let m = ['a', 'e', 'i', 'o', 'u'].find_in(hay).unwrap();
    assert_eq!(m.start, 1);
}

#[test]
fn str_set_first_member_wins() {
    let hay = "Can you find a needle in a haystack";
    let set = vec![String::from("Can"), String::from("you")];
    let m = set.find_in(hay).unwrap();
    assert_eq!(m.start, 0);
    let set2 = vec![String::from("needle"), String::from("Can")];
    let m2 = set2.find_in(hay).unwrap();
    assert_eq!(m2.start, 15);
}

#[test]
fn predicate_leftmost_longest() {
    let p = Pred(Digits);
    let m = p.find_in("ab12cd3").unwrap();
    assert_eq!((m.start, m.end), (2, 4));
    assert_eq!(m.as_str(), "12");
    assert!(p.find_in("abcd").is_none());
}

#[test]
fn rev_find_reports_last_occurrence() {
    let m = "ab".rev_find_in("cabd").unwrap();
    assert_eq!((m.start, m.end), (1, 3));
    assert!("ab".rev_find_in("cd").is_none());
    let m2 = 'a'.rev_find_in("aba").unwrap();
    assert_eq!((m2.start, m2.end), (2, 3));
}

#[test]
fn prefix_anchored_at_start() {
    assert!("ab".find_prefix_in("cdab").is_none());
    let m = "ab".find_prefix_in("abcd").unwrap();
    assert_eq!((m.start, m.end), (0, 2));
}

#[test]
fn suffix_anchored_at_end() {
    assert!("ab".find_suffix_in("abcd").is_none());
    let m = "ab".find_suffix_in("cdab").unwrap();
    assert_eq!((m.start, m.end), (2, 4));
}

#[test]
fn prefix_result_is_find_in_result() {
    let pre = "ab".find_prefix_in("abcab").unwrap();
    let first = "ab".find_in("abcab").unwrap();
    assert_eq!(pre.start, 0);
    assert_eq!((pre.start, pre.end), (first.start, first.end));
}

#[test]
fn predicate_derived_searches() {
    let p = Pred(Digits);
    let m = p.rev_find_in("12 34").unwrap();
    assert_eq!((m.start, m.end), (4, 5));
    let m2 = p.find_prefix_in("12 34").unwrap();
    assert_eq!((m2.start, m2.end), (0, 2));
    assert!(p.find_suffix_in("12 x").is_none());
}

#[test]
fn regex_compiles_and_finds() {
    let rx = RegexPattern::new(r"[a-zA-Z_$][a-zA-Z_$0-9]*").unwrap();
    let m = rx.find_in("x_4 = 1").unwrap();
    assert_eq!((m.start, m.end), (0, 3));
    assert_eq!(m.as_str(), "x_4");
    let m2 = rx.find_in("4 + x1").unwrap();
    assert_eq!((m2.start, m2.end), (4, 6));
    assert!(rx.find_in("414").is_none());
}

#[test]
fn regex_invalid_pattern_is_rejected() {
    assert!(RegexPattern::new("(").is_none());
}

#[test]
fn regex_empty_engine_match_is_rejected() {
    let rx = RegexPattern::new("a*").unwrap();
    assert!(rx.find_in("bbb").is_none());
}

#[test]
fn regex_derived_suffix_search() {
    let rx = RegexPattern::new(r"[a-zA-Z_$][a-zA-Z_$0-9]*").unwrap();
    let m = rx.find_suffix_in("1 + x1").unwrap();
    assert_eq!((m.start, m.end), (4, 6));
    assert!(rx.find_suffix_in("x1 + 1").is_none());
}
