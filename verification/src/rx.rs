//! The regular-expression matcher kind, backed by the regex crate.
//!
//! The engine is outside this crate, so its results are named rather than
//! defined: [`regex_valid`] names which pattern texts compile, and
//! [`regex_find_of`] names the leftmost match the engine reports for a
//! compiled pattern on a haystack. Both are functions of their text
//! arguments alone. The engine reports byte offsets, which agree with this
//! crate's character offsets only on ASCII haystacks, so matching is
//! offered on ASCII haystacks and reports nothing elsewhere; a zero-length
//! engine match is likewise rejected, since a [`Match`] is never empty.

use vstd::prelude::*;
use crate::pattern::{Match, Pattern};

verus! {

/// Declares `regex::Regex` so compiled expressions can stand in fields;
/// the value itself is opaque to the verifier.
#[verifier::external_type_specification]
#[verifier::external_body]
pub struct ExRegex(regex::Regex);

/// Whether `regex::Regex::new` accepts `pat` as a regular expression.
pub uninterp spec fn regex_valid(pat: Seq<char>) -> bool;

/// The leftmost match `regex::Regex::find` reports for the pattern `pat`
/// on `hay`, as a possibly empty byte range, or `None` when the pattern
/// matches nowhere in `hay`.
pub uninterp spec fn regex_find_of(pat: Seq<char>, hay: Seq<char>) -> Option<(usize, usize)>;

/// A compiled regular expression, together with the pattern text it was
/// compiled from.
///
/// The fields always agree: [`RegexPattern::new`] is the only constructor,
/// and it compiles exactly the stored pattern text. The contract of the
/// search below leans on that agreement.
pub struct RegexPattern {
    pattern: String,
    re: regex::Regex,
}

impl RegexPattern {
    /// The pattern text the expression was compiled from.
    pub closed spec fn pat(&self) -> Seq<char> {
        self.pattern@
    }

    /// Compile a regular expression from its pattern text.
    ///
    /// Relies on `regex::Regex::new`: it succeeds exactly on the pattern
    /// texts the regex crate accepts.
    #[verifier::external_body]
    pub fn new(pat: &str) -> (r: Option<RegexPattern>)
        ensures
            r is Some <==> regex_valid(pat@),
            r matches Some(rx) ==> rx.pat() == pat@,
    {
        match regex::Regex::new(pat) {
            Ok(re) => Some(RegexPattern { pattern: pat.to_owned(), re }),
            Err(_) => None,
        }
    }
}

/// Relies on `regex::Regex::find`: the byte range of the leftmost match,
/// or `None` when the pattern matches nowhere; the result depends on the
/// compiled pattern and the haystack alone, and its range lies inside the
/// haystack. On an ASCII haystack byte offsets are character offsets.
#[verifier::external_body]
fn regex_search(rx: &RegexPattern, haystack: &str) -> (r: Option<(usize, usize)>)
    requires
        haystack.is_ascii(),
    ensures
        r == regex_find_of(rx.pat(), haystack@),
        r matches Some(q) ==> q.0 <= q.1 <= haystack@.len(),
{
    rx.re.find(haystack).map(|m| (m.start(), m.end()))
}

impl Pattern for RegexPattern {
    open spec fn wf(&self) -> bool {
        true
    }

    /// Engine-native semantics: the leftmost match the engine reports,
    /// taken only on ASCII haystacks and only when it is non-empty.
    open spec fn spec_find(&self, hay: Seq<char>) -> Option<(int, int)> {
        if vstd::utf8::is_ascii_chars(hay) {
            match regex_find_of(self.pat(), hay) {
                Some(q) => if q.0 < q.1 <= hay.len() {
                    Some((q.0 as int, q.1 as int))
                } else {
                    None
                },
                None => None,
            }
        } else {
            None
        }
    }

    proof fn lemma_find_valid(&self, hay: Seq<char>) {
    }

    fn find_in<'a>(&self, haystack: &'a str) -> (r: Option<Match<'a>>) {
        if !haystack.is_ascii() {
            return None;
        }
        match regex_search(self, haystack) {
            Some(q) => {
                let (s, e) = q;
                if s < e {
                    Some(Match::new(haystack, s, e))
                } else {
                    None
                }
            },
            None => None,
        }
    }
}

} // verus!
