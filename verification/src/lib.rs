//! A pattern-matching lexer.
//!
//! The [`pattern`] module gives one capability — locate occurrences of a
//! pattern inside a string slice — implemented by several matcher kinds:
//! literal characters and strings and sets of either in [`pattern`],
//! arbitrary predicates in [`predicate`], and regular expressions in
//! [`rx`], with [`matcher`] joining them into one tagged type. The
//! [`lexer`] module turns a priority-ordered list of such matchers into a
//! greedy, longest-match tokenizer. All offsets are character indices.

pub mod lexer;
pub mod matcher;
pub mod pattern;
pub mod predicate;
pub mod rx;
