//! A tagged union over the matcher kinds, so that rules of different kinds
//! can stand together in one priority-ordered rule list.

use vstd::prelude::*;
use crate::pattern::{Match, Pattern};
use crate::predicate::{Pred, Predicate};
use crate::rx::RegexPattern;

verus! {

/// One matcher of any kind. Each variant carries a value that is itself a
/// [`Pattern`], and the dispatch below forwards to it, so a `Matcher`
/// matches exactly as the carried value does.
pub enum Matcher<P: Predicate> {
    /// A single character.
    Char(char),
    /// A literal string.
    Lit(String),
    /// A set of characters: the first member with an occurrence wins.
    Chars(Vec<char>),
    /// A set of literal strings: the first member with an occurrence wins.
    Lits(Vec<String>),
    /// An arbitrary predicate over candidate substrings.
    Test(Pred<P>),
    /// A regular expression.
    Re(RegexPattern),
}

impl<P: Predicate> Pattern for Matcher<P> {
    open spec fn wf(&self) -> bool {
        match self {
            Matcher::Char(c) => c.wf(),
            Matcher::Lit(s) => s.wf(),
            Matcher::Chars(v) => v.wf(),
            Matcher::Lits(v) => v.wf(),
            Matcher::Test(p) => p.wf(),
            Matcher::Re(r) => r.wf(),
        }
    }

    open spec fn spec_find(&self, hay: Seq<char>) -> Option<(int, int)> {
        match self {
            Matcher::Char(c) => c.spec_find(hay),
            Matcher::Lit(s) => s.spec_find(hay),
            Matcher::Chars(v) => v.spec_find(hay),
            Matcher::Lits(v) => v.spec_find(hay),
            Matcher::Test(p) => p.spec_find(hay),
            Matcher::Re(r) => r.spec_find(hay),
        }
    }

    proof fn lemma_find_valid(&self, hay: Seq<char>) {
        match self {
            Matcher::Char(c) => c.lemma_find_valid(hay),
            Matcher::Lit(s) => s.lemma_find_valid(hay),
            Matcher::Chars(v) => v.lemma_find_valid(hay),
            Matcher::Lits(v) => v.lemma_find_valid(hay),
            Matcher::Test(p) => p.lemma_find_valid(hay),
            Matcher::Re(r) => r.lemma_find_valid(hay),
        }
    }

    fn find_in<'a>(&self, haystack: &'a str) -> (r: Option<Match<'a>>) {
        match self {
            Matcher::Char(c) => c.find_in(haystack),
            Matcher::Lit(s) => s.find_in(haystack),
            Matcher::Chars(v) => v.find_in(haystack),
            Matcher::Lits(v) => v.find_in(haystack),
            Matcher::Test(p) => p.find_in(haystack),
            Matcher::Re(r) => r.find_in(haystack),
        }
    }
}

} // verus!
