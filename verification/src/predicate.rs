//! The predicate matcher kind: an arbitrary boolean test over candidate
//! substrings.
//!
//! This is the fallback general case among the matcher kinds, trading
//! performance for expressiveness: one invocation of
//! [`Pattern::find_in`](crate::pattern::Pattern::find_in) on a
//! [`Pred`] is worst-case quadratic in the haystack length, since every
//! candidate substring may be tested.

use vstd::prelude::*;
use crate::pattern::{Match, Pattern};

verus! {

/// A boolean test over strings, supplied by the user of the crate.
///
/// `holds` is the mathematical meaning of the test; `test` is its
/// executable form, and must decide exactly `holds`.
pub trait Predicate: Sized {
    /// Whether the predicate accepts the string `s`.
    spec fn holds(&self, s: Seq<char>) -> bool;

    /// Decide whether the predicate accepts `s`.
    fn test(&self, s: &str) -> (b: bool)
        ensures
            b == self.holds(s@),
    ;
}

/// The end of the longest substring starting at `c1` that `p` accepts,
/// among candidate ends in `c1 < end <= c2`: candidate ends are tried from
/// `c2` downward and the first accepted one wins.
pub open spec fn longest_end_from<P: Predicate>(p: &P, hay: Seq<char>, c1: int, c2: int) -> Option<
    int,
>
    decreases c2 - c1,
    when c1 <= c2
{
    if c2 <= c1 {
        None
    } else if p.holds(hay.subrange(c1, c2)) {
        Some(c2)
    } else {
        longest_end_from(p, hay, c1, c2 - 1)
    }
}

/// The match the predicate matcher reports when candidate start offsets
/// below `c1` have been tried without success: starts are scanned left to
/// right, and at each start the longest accepted substring wins.
pub open spec fn pred_find_from<P: Predicate>(p: &P, hay: Seq<char>, c1: int) -> Option<(int, int)>
    decreases hay.len() - c1,
    when 0 <= c1
{
    if c1 >= hay.len() {
        None
    } else {
        match longest_end_from(p, hay, c1, hay.len() as int) {
            Some(e) => Some((c1, e)),
            None => pred_find_from(p, hay, c1 + 1),
        }
    }
}

proof fn lemma_longest_end_from_valid<P: Predicate>(p: &P, hay: Seq<char>, c1: int, c2: int)
    requires
        c1 <= c2,
    ensures
        longest_end_from(p, hay, c1, c2) matches Some(e) ==> c1 < e <= c2,
    decreases c2 - c1,
{
    if c2 > c1 && !p.holds(hay.subrange(c1, c2)) {
        lemma_longest_end_from_valid(p, hay, c1, c2 - 1);
    }
}

proof fn lemma_pred_find_from_valid<P: Predicate>(p: &P, hay: Seq<char>, c1: int)
    requires
        0 <= c1,
    ensures
        pred_find_from(p, hay, c1) matches Some(r) ==> c1 <= r.0 < r.1 <= hay.len(),
    decreases hay.len() - c1,
{
    if c1 < hay.len() {
        lemma_longest_end_from_valid(p, hay, c1, hay.len() as int);
        lemma_pred_find_from_valid(p, hay, c1 + 1);
    }
}

proof fn lemma_longest_end_from_meaning<P: Predicate>(p: &P, hay: Seq<char>, c1: int, c2: int)
    requires
        c1 <= c2,
    ensures
        longest_end_from(p, hay, c1, c2) matches Some(e) ==> c1 < e <= c2 && p.holds(
            hay.subrange(c1, e),
        ) && forall|e2: int| e < e2 <= c2 ==> !p.holds(#[trigger] hay.subrange(c1, e2)),
        longest_end_from(p, hay, c1, c2) is None ==> forall|e2: int|
            c1 < e2 <= c2 ==> !p.holds(#[trigger] hay.subrange(c1, e2)),
    decreases c2 - c1,
{
    if c2 > c1 && !p.holds(hay.subrange(c1, c2)) {
        lemma_longest_end_from_meaning(p, hay, c1, c2 - 1);
    }
}

proof fn lemma_pred_find_from_meaning<P: Predicate>(p: &P, hay: Seq<char>, c1: int)
    requires
        0 <= c1,
    ensures
        pred_find_from(p, hay, c1) matches Some(r) ==> {
            &&& c1 <= r.0 < r.1 <= hay.len()
            &&& p.holds(hay.subrange(r.0, r.1))
            &&& forall|e: int| r.1 < e <= hay.len() ==> !p.holds(#[trigger] hay.subrange(r.0, e))
            &&& forall|s: int, e: int|
                c1 <= s < r.0 && s < e <= hay.len() ==> !p.holds(#[trigger] hay.subrange(s, e))
        },
        pred_find_from(p, hay, c1) is None ==> forall|s: int, e: int|
            c1 <= s && s < e <= hay.len() ==> !p.holds(#[trigger] hay.subrange(s, e)),
    decreases hay.len() - c1,
{
    if c1 < hay.len() {
        lemma_longest_end_from_meaning(p, hay, c1, hay.len() as int);
        if longest_end_from(p, hay, c1, hay.len() as int) is None {
            lemma_pred_find_from_meaning(p, hay, c1 + 1);
        }
    }
}

/// What the predicate kind reports: candidate starts are scanned left to
/// right and candidate ends from the haystack's end downward, so the
/// reported substring is accepted, no longer substring at its start is
/// accepted, and no substring at any earlier start is accepted; when
/// nothing is reported, the predicate accepts no non-empty substring at
/// all.
pub proof fn lemma_pred_find_meaning<P: Predicate>(p: &P, hay: Seq<char>)
    ensures
        pred_find_from(p, hay, 0) matches Some(r) ==> {
            &&& 0 <= r.0 < r.1 <= hay.len()
            &&& p.holds(hay.subrange(r.0, r.1))
            &&& forall|e: int| r.1 < e <= hay.len() ==> !p.holds(#[trigger] hay.subrange(r.0, e))
            &&& forall|s: int, e: int|
                0 <= s < r.0 && s < e <= hay.len() ==> !p.holds(#[trigger] hay.subrange(s, e))
        },
        pred_find_from(p, hay, 0) is None ==> forall|s: int, e: int|
            0 <= s && s < e <= hay.len() ==> !p.holds(#[trigger] hay.subrange(s, e)),
{
    lemma_pred_find_from_meaning(p, hay, 0);
}

/// The matcher built from a [`Predicate`]: it matches every substring the
/// predicate accepts, greedily preferring the leftmost start and, at that
/// start, the longest accepted end.
pub struct Pred<P: Predicate>(pub P);

impl<P: Predicate> Pattern for Pred<P> {
    open spec fn wf(&self) -> bool {
        true
    }

    /// Leftmost start first; at each start, candidate ends are tried from
    /// the haystack's end downward and the first accepted substring wins.
    open spec fn spec_find(&self, hay: Seq<char>) -> Option<(int, int)> {
        pred_find_from(&self.0, hay, 0)
    }

    proof fn lemma_find_valid(&self, hay: Seq<char>) {
        lemma_pred_find_from_valid(&self.0, hay, 0);
    }

    fn find_in<'a>(&self, haystack: &'a str) -> (r: Option<Match<'a>>) {
        let ghost hay = haystack@;
        let n = haystack.unicode_len();
        let mut cur1: usize = 0;
        while cur1 < n
            invariant
                haystack@ == hay,
                n == hay.len(),
                cur1 <= n,
                pred_find_from(&self.0, hay, 0) == pred_find_from(&self.0, hay, cur1 as int),
            decreases n - cur1,
        {
            let mut cur2: usize = n;
            while cur2 > cur1
                invariant
                    haystack@ == hay,
                    n == hay.len(),
                    cur1 < n,
                    cur1 <= cur2 <= n,
                    pred_find_from(&self.0, hay, 0) == pred_find_from(&self.0, hay, cur1 as int),
                    longest_end_from(&self.0, hay, cur1 as int, n as int) == longest_end_from(
                        &self.0,
                        hay,
                        cur1 as int,
                        cur2 as int,
                    ),
                decreases cur2,
            {
                let sub = haystack.substring_char(cur1, cur2);
                if self.0.test(sub) {
                    proof {
                        assert(longest_end_from(&self.0, hay, cur1 as int, cur2 as int) == Some(
                            cur2 as int,
                        ));
                        assert(pred_find_from(&self.0, hay, cur1 as int) == Some(
                            (cur1 as int, cur2 as int),
                        ));
                    }
                    return Some(Match::new(haystack, cur1, cur2));
                }
                cur2 = cur2 - 1;
            }
            cur1 = cur1 + 1;
        }
        None
    }
}

/// A digits-only test: accepts a string whose characters are all decimal
/// digits, as a number rule for a lexer would use.
pub struct Digits;

/// Whether `c` is a decimal digit.
pub open spec fn is_digit(c: char) -> bool {
    '0' <= c <= '9'
}

impl Predicate for Digits {
    /// Every character is a decimal digit.
    open spec fn holds(&self, s: Seq<char>) -> bool {
        forall|i: int| 0 <= i < s.len() ==> is_digit(#[trigger] s[i])
    }

    fn test(&self, s: &str) -> (b: bool) {
        let n = s.unicode_len();
        let mut i: usize = 0;
        while i < n
            invariant
                n == s@.len(),
                i <= n,
                forall|k: int| 0 <= k < i ==> is_digit(#[trigger] s@[k]),
            decreases n - i,
        {
            let c = s.get_char(i);
            if c < '0' || c > '9' {
                return false;
            }
            i = i + 1;
        }
        true
    }
}

} // verus!
