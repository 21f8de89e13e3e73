//! Pattern matching over string slices.
//!
//! A [`Pattern`] locates occurrences of itself inside a haystack; every
//! occurrence is reported as a [`Match`], a half-open character range into
//! the haystack. All indices in this crate are character indices, so a
//! haystack's length is the number of characters it holds.

use vstd::prelude::*;

verus! {

/// A located occurrence of a pattern: the half-open character range
/// `[start, end)` of `haystack`.
///
/// A match borrows the haystack and never outlives it. Zero-length ranges
/// are invalid: a well-formed match always covers at least one character.
#[derive(Debug, Clone, PartialEq)]
pub struct Match<'a> {
    /// The string that was searched in.
    pub haystack: &'a str,
    /// Character index at which the occurrence starts.
    pub start: usize,
    /// Character index one past the last character of the occurrence.
    pub end: usize,
}

impl<'a> Match<'a> {
    /// A match is well formed when its range is non-empty and lies inside
    /// its haystack.
    pub open spec fn wf(&self) -> bool {
        self.start < self.end <= self.haystack@.len()
    }

    /// The characters the match covers.
    pub open spec fn text(&self) -> Seq<char> {
        self.haystack@.subrange(self.start as int, self.end as int)
    }

    /// Create a match from a haystack and a `start..end` character range.
    ///
    /// An inverted or out-of-range range is a programming error, so it is
    /// excluded here rather than folded into a runtime error.
    pub fn new(haystack: &'a str, start: usize, end: usize) -> (m: Self)
        requires
            start < end,
            end <= haystack@.len(),
        ensures
            m.haystack@ == haystack@,
            m.start == start,
            m.end == end,
            m.wf(),
    {
        Match { haystack, start, end }
    }

    /// The number of characters in the match.
    pub fn len(&self) -> (n: usize)
        requires
            self.wf(),
        ensures
            n == self.end - self.start,
            n >= 1,
    {
        self.end - self.start
    }

    /// The matched text, borrowed from the haystack.
    pub fn as_str(&self) -> (s: &'a str)
        requires
            self.wf(),
        ensures
            s@ == self.text(),
    {
        self.haystack.substring_char(self.start, self.end)
    }

    /// The matched text as an owned string.
    pub fn to_string(&self) -> (s: String)
        requires
            self.wf(),
        ensures
            s@ == self.text(),
    {
        self.as_str().to_owned()
    }
}

/// A string pattern.
///
/// A value of an implementing type can locate occurrences of itself inside
/// a haystack. Each matcher kind fixes its own policy for which occurrence
/// is reported first; that policy is pinned by the kind's `spec_find`, and
/// every other operation is derived from `find_in`.
pub trait Pattern: Sized {
    /// Well-formedness of the pattern value itself.
    spec fn wf(&self) -> bool;

    /// The occurrence `find_in` reports in `hay`, as a half-open character
    /// range, under this matcher kind's own policy.
    spec fn spec_find(&self, hay: Seq<char>) -> Option<(int, int)>;

    /// Every reported range is non-empty and lies inside the haystack.
    proof fn lemma_find_valid(&self, hay: Seq<char>)
        requires
            self.wf(),
        ensures
            self.spec_find(hay) matches Some(r) ==> 0 <= r.0 < r.1 <= hay.len(),
    ;

    /// Find the first occurrence of the pattern in the given haystack.
    fn find_in<'a>(&self, haystack: &'a str) -> (r: Option<Match<'a>>)
        requires
            self.wf(),
        ensures
            match r {
                Some(m) => {
                    &&& m.haystack@ == haystack@
                    &&& m.wf()
                    &&& self.spec_find(haystack@) == Some((m.start as int, m.end as int))
                },
                None => self.spec_find(haystack@) is None,
            },
    ;
}

/// The operations derived from [`Pattern::find_in`], available on every
/// pattern through the blanket implementation below.
pub trait PatternExt: Pattern {
    /// Find the last occurrence of the pattern in the given haystack, by
    /// scanning candidate start offsets from the end backward and returning
    /// the first offset whose suffix yields any match.
    fn rev_find_in<'a>(&self, haystack: &'a str) -> (r: Option<Match<'a>>)
        requires
            self.wf(),
        ensures
            match r {
                Some(m) => {
                    &&& m.haystack@ == haystack@
                    &&& m.wf()
                    &&& spec_rev_find(self, haystack@) == Some((m.start as int, m.end as int))
                },
                None => spec_rev_find(self, haystack@) is None,
            },
    {
        let ghost hay = haystack@;
        let n = haystack.unicode_len();
        let mut cursor = n;
        while cursor > 0
            invariant
                self.wf(),
                haystack@ == hay,
                n == hay.len(),
                cursor <= n,
                spec_rev_find(self, hay) == rev_find_from(self, hay, cursor as nat),
            decreases cursor,
        {
            cursor = cursor - 1;
            let suffix = haystack.substring_char(cursor, n);
            proof {
                assert(suffix@ =~= hay.skip(cursor as int));
            }
            if let Some(mat) = self.find_in(suffix) {
                return Some(Match::new(haystack, cursor + mat.start, cursor + mat.end));
            }
        }
        None
    }

    /// Find an occurrence of the pattern that is a prefix of the haystack.
    fn find_prefix_in<'a>(&self, haystack: &'a str) -> (r: Option<Match<'a>>)
        requires
            self.wf(),
        ensures
            match r {
                Some(m) => {
                    &&& m.haystack@ == haystack@
                    &&& m.wf()
                    &&& m.start == 0
                    &&& spec_prefix(self, haystack@) == Some((m.start as int, m.end as int))
                },
                None => spec_prefix(self, haystack@) is None,
            },
    {
        match self.find_in(haystack) {
            Some(m) => if m.start == 0 {
                Some(m)
            } else {
                None
            },
            None => None,
        }
    }

    /// Find an occurrence of the pattern that is a suffix of the haystack.
    fn find_suffix_in<'a>(&self, haystack: &'a str) -> (r: Option<Match<'a>>)
        requires
            self.wf(),
        ensures
            match r {
                Some(m) => {
                    &&& m.haystack@ == haystack@
                    &&& m.wf()
                    &&& m.end == haystack@.len()
                    &&& spec_suffix(self, haystack@) == Some((m.start as int, m.end as int))
                },
                None => spec_suffix(self, haystack@) is None,
            },
    {
        let n = haystack.unicode_len();
        match self.rev_find_in(haystack) {
            Some(m) => if m.end == n {
                Some(m)
            } else {
                None
            },
            None => None,
        }
    }
}

impl<P: Pattern> PatternExt for P {
}

/// The match that scanning candidate start offsets `cursor - 1`, `cursor - 2`,
/// ..., `0` would report first: the result of `rev_find_in` once the offsets
/// at `cursor` and above have been tried without success.
pub open spec fn rev_find_from<P: Pattern>(p: &P, hay: Seq<char>, cursor: nat) -> Option<(int, int)>
    decreases cursor,
{
    if cursor == 0 {
        None
    } else {
        match p.spec_find(hay.skip(cursor - 1)) {
            Some(r) => Some((cursor - 1 + r.0, cursor - 1 + r.1)),
            None => rev_find_from(p, hay, (cursor - 1) as nat),
        }
    }
}

/// The last occurrence of `p` in `hay`: the start offset is the greatest one
/// whose suffix yields any match.
pub open spec fn spec_rev_find<P: Pattern>(p: &P, hay: Seq<char>) -> Option<(int, int)> {
    rev_find_from(p, hay, hay.len())
}

/// The occurrence `find_prefix_in` reports: the first match, kept only when
/// it starts at offset zero.
pub open spec fn spec_prefix<P: Pattern>(p: &P, hay: Seq<char>) -> Option<(int, int)> {
    match p.spec_find(hay) {
        Some(r) => if r.0 == 0 {
            Some(r)
        } else {
            None
        },
        None => None,
    }
}

/// The occurrence `find_suffix_in` reports: the last match, kept only when
/// it ends at the haystack's end.
pub open spec fn spec_suffix<P: Pattern>(p: &P, hay: Seq<char>) -> Option<(int, int)> {
    match spec_rev_find(p, hay) {
        Some(r) => if r.1 == hay.len() {
            Some(r)
        } else {
            None
        },
        None => None,
    }
}

/// Prefix/suffix consistency: a prefix match is exactly the match `find_in`
/// reports, anchored at offset zero, and a suffix match is exactly the match
/// `rev_find_in` reports, anchored at the haystack's end.
pub proof fn lemma_prefix_suffix_consistent<P: Pattern>(p: &P, hay: Seq<char>)
    ensures
        spec_prefix(p, hay) matches Some(r) ==> p.spec_find(hay) == Some(r) && r.0 == 0,
        spec_suffix(p, hay) matches Some(r) ==> spec_rev_find(p, hay) == Some(r) && r.1
            == hay.len(),
{
}

/// The first offset at or after `from` where the character `c` occurs in
/// `hay`.
pub open spec fn first_char_from(c: char, hay: Seq<char>, from: int) -> Option<int>
    decreases hay.len() - from,
    when 0 <= from
{
    if from >= hay.len() {
        None
    } else if hay[from] == c {
        Some(from)
    } else {
        first_char_from(c, hay, from + 1)
    }
}

proof fn lemma_first_char_from_valid(c: char, hay: Seq<char>, from: int)
    requires
        0 <= from,
    ensures
        first_char_from(c, hay, from) matches Some(i) ==> from <= i < hay.len() && hay[i] == c,
    decreases hay.len() - from,
{
    if from < hay.len() && hay[from] != c {
        lemma_first_char_from_valid(c, hay, from + 1);
    }
}

proof fn lemma_first_char_from_meaning(c: char, hay: Seq<char>, from: int)
    requires
        0 <= from,
    ensures
        first_char_from(c, hay, from) matches Some(i) ==> from <= i < hay.len() && hay[i] == c
            && forall|k: int| from <= k < i ==> hay[k] != c,
        first_char_from(c, hay, from) is None ==> forall|k: int|
            from <= k < hay.len() ==> hay[k] != c,
    decreases hay.len() - from,
{
    if from < hay.len() && hay[from] != c {
        lemma_first_char_from_meaning(c, hay, from + 1);
    }
}

/// What the character kind reports: the leftmost occurrence of exactly the
/// character, one character wide, and nothing when the character does not
/// occur.
pub proof fn lemma_char_find_meaning(c: char, hay: Seq<char>)
    ensures
        c.spec_find(hay) matches Some(r) ==> 0 <= r.0 < hay.len() && r.1 == r.0 + 1 && hay[r.0]
            == c && forall|k: int| 0 <= k < r.0 ==> hay[k] != c,
        c.spec_find(hay) is None ==> forall|k: int| 0 <= k < hay.len() ==> hay[k] != c,
{
    lemma_first_char_from_meaning(c, hay, 0);
}

impl Pattern for char {
    open spec fn wf(&self) -> bool {
        true
    }

    /// The leftmost occurrence of exactly this character.
    open spec fn spec_find(&self, hay: Seq<char>) -> Option<(int, int)> {
        match first_char_from(*self, hay, 0) {
            Some(i) => Some((i, i + 1)),
            None => None,
        }
    }

    proof fn lemma_find_valid(&self, hay: Seq<char>) {
        lemma_first_char_from_valid(*self, hay, 0);
    }

    fn find_in<'a>(&self, haystack: &'a str) -> (r: Option<Match<'a>>) {
        let ghost hay = haystack@;
        let n = haystack.unicode_len();
        let mut i: usize = 0;
        while i < n
            invariant
                haystack@ == hay,
                n == hay.len(),
                i <= n,
                first_char_from(*self, hay, 0) == first_char_from(*self, hay, i as int),
            decreases n - i,
        {
            if haystack.get_char(i) == *self {
                return Some(Match::new(haystack, i, i + 1));
            }
            i = i + 1;
        }
        None
    }
}

/// The first offset at or after `from` where the literal `pat` occurs in
/// `hay`.
pub open spec fn first_lit_from(pat: Seq<char>, hay: Seq<char>, from: int) -> Option<int>
    decreases hay.len() - from,
    when 0 <= from
{
    if from + pat.len() > hay.len() {
        None
    } else if hay.subrange(from, from + pat.len()) == pat {
        Some(from)
    } else if from < hay.len() {
        first_lit_from(pat, hay, from + 1)
    } else {
        None
    }
}

proof fn lemma_first_lit_from_valid(pat: Seq<char>, hay: Seq<char>, from: int)
    requires
        0 <= from,
    ensures
        first_lit_from(pat, hay, from) matches Some(i) ==> from <= i && i + pat.len()
            <= hay.len() && hay.subrange(i, i + pat.len()) == pat,
    decreases hay.len() - from,
{
    if from + pat.len() <= hay.len() && hay.subrange(from, from + pat.len()) != pat && from
        < hay.len() {
        lemma_first_lit_from_valid(pat, hay, from + 1);
    }
}

/// Whether the literal `pat` occurs in `hay` at offset `at`.
pub open spec fn lit_occurs_at(pat: Seq<char>, hay: Seq<char>, at: int) -> bool {
    0 <= at && at + pat.len() <= hay.len() && hay.subrange(at, at + pat.len()) == pat
}

proof fn lemma_first_lit_from_meaning(pat: Seq<char>, hay: Seq<char>, from: int)
    requires
        0 <= from,
    ensures
        first_lit_from(pat, hay, from) matches Some(i) ==> from <= i && lit_occurs_at(pat, hay, i)
            && forall|k: int| from <= k < i ==> !lit_occurs_at(pat, hay, k),
        first_lit_from(pat, hay, from) is None ==> forall|k: int|
            from <= k ==> !lit_occurs_at(pat, hay, k),
    decreases hay.len() - from,
{
    if from + pat.len() <= hay.len() && hay.subrange(from, from + pat.len()) != pat && from
        < hay.len() {
        lemma_first_lit_from_meaning(pat, hay, from + 1);
    }
}

/// What the literal-string kinds report: the leftmost occurrence of
/// exactly the substring `pat`, and nothing when it occurs nowhere.
pub proof fn lemma_lit_find_meaning(pat: Seq<char>, hay: Seq<char>)
    ensures
        first_lit_from(pat, hay, 0) matches Some(i) ==> lit_occurs_at(pat, hay, i) && forall|
            k: int,
        | 0 <= k < i ==> !lit_occurs_at(pat, hay, k),
        first_lit_from(pat, hay, 0) is None ==> forall|k: int| !lit_occurs_at(pat, hay, k),
{
    lemma_first_lit_from_meaning(pat, hay, 0);
    if first_lit_from(pat, hay, 0) is None {
        assert forall|k: int| !lit_occurs_at(pat, hay, k) by {
            if k >= 0 {
                assert(!lit_occurs_at(pat, hay, k));
            }
        }
    }
}

/// Whether the literal `pat` occurs in `haystack` at character offset `at`.
fn lit_matches_at(haystack: &str, at: usize, pat: &str) -> (b: bool)
    requires
        at + pat@.len() <= haystack@.len(),
        haystack@.len() <= usize::MAX,
    ensures
        b == (haystack@.subrange(at as int, at + pat@.len()) == pat@),
{
    let plen = pat.unicode_len();
    let mut j: usize = 0;
    while j < plen
        invariant
            at + plen <= haystack@.len(),
            haystack@.len() <= usize::MAX,
            plen == pat@.len(),
            j <= plen,
            forall|k: int| 0 <= k < j ==> haystack@[at + k] == pat@[k],
        decreases plen - j,
    {
        if haystack.get_char(at + j) != pat.get_char(j) {
            proof {
                let sub = haystack@.subrange(at as int, at + pat@.len());
                assert(sub[j as int] != pat@[j as int]);
            }
            return false;
        }
        j = j + 1;
    }
    proof {
        assert(haystack@.subrange(at as int, at + pat@.len()) =~= pat@);
    }
    true
}

/// The leftmost occurrence of the literal `pat` in `haystack`, scanning
/// candidate offsets left to right.
fn lit_find_in<'a>(pat: &str, haystack: &'a str) -> (r: Option<Match<'a>>)
    requires
        pat@.len() > 0,
    ensures
        match r {
            Some(m) => {
                &&& m.haystack@ == haystack@
                &&& m.wf()
                &&& first_lit_from(pat@, haystack@, 0) == Some(m.start as int)
                &&& m.end == m.start + pat@.len()
            },
            None => first_lit_from(pat@, haystack@, 0) is None,
        },
{
    let ghost hay = haystack@;
    let plen = pat.unicode_len();
    let n = haystack.unicode_len();
    if plen > n {
        return None;
    }
    let mut i: usize = 0;
    while i <= n - plen
        invariant
            haystack@ == hay,
            n == hay.len(),
            plen == pat@.len(),
            0 < plen <= n,
            i <= n - plen + 1,
            first_lit_from(pat@, hay, 0) == first_lit_from(pat@, hay, i as int),
        decreases n - i,
    {
        if lit_matches_at(haystack, i, pat) {
            return Some(Match::new(haystack, i, i + plen));
        }
        i = i + 1;
    }
    None
}

impl<'p> Pattern for &'p str {
    /// An empty literal would yield a zero-length match, which this crate
    /// rejects, so a literal pattern must be non-empty.
    open spec fn wf(&self) -> bool {
        self@.len() > 0
    }

    /// The leftmost occurrence of exactly this substring.
    open spec fn spec_find(&self, hay: Seq<char>) -> Option<(int, int)> {
        match first_lit_from(self@, hay, 0) {
            Some(i) => Some((i, i + self@.len())),
            None => None,
        }
    }

    proof fn lemma_find_valid(&self, hay: Seq<char>) {
        lemma_first_lit_from_valid(self@, hay, 0);
    }

    fn find_in<'a>(&self, haystack: &'a str) -> (r: Option<Match<'a>>) {
        lit_find_in(self, haystack)
    }
}

impl Pattern for String {
    /// An empty literal would yield a zero-length match, which this crate
    /// rejects, so a literal pattern must be non-empty.
    open spec fn wf(&self) -> bool {
        self@.len() > 0
    }

    /// The leftmost occurrence of exactly this substring.
    open spec fn spec_find(&self, hay: Seq<char>) -> Option<(int, int)> {
        match first_lit_from(self@, hay, 0) {
            Some(i) => Some((i, i + self@.len())),
            None => None,
        }
    }

    proof fn lemma_find_valid(&self, hay: Seq<char>) {
        lemma_first_lit_from_valid(self@, hay, 0);
    }

    fn find_in<'a>(&self, haystack: &'a str) -> (r: Option<Match<'a>>) {
        lit_find_in(self.as_str(), haystack)
    }
}

/// The match the set members at index `k` and above report: the first such
/// member with any occurrence wins, so the matches of the members are
/// interleaved by member order, not globally sorted by start offset.
pub open spec fn set_find_from<P: Pattern>(members: Seq<P>, hay: Seq<char>, k: int) -> Option<
    (int, int),
>
    decreases members.len() - k,
    when 0 <= k
{
    if k >= members.len() {
        None
    } else {
        match members[k].spec_find(hay) {
            Some(r) => Some(r),
            None => set_find_from(members, hay, k + 1),
        }
    }
}

proof fn lemma_set_find_from_valid<P: Pattern>(members: Seq<P>, hay: Seq<char>, k: int)
    requires
        0 <= k,
        forall|j: int| 0 <= j < members.len() ==> (#[trigger] members[j]).wf(),
    ensures
        set_find_from(members, hay, k) matches Some(r) ==> 0 <= r.0 < r.1 <= hay.len(),
    decreases members.len() - k,
{
    if k < members.len() {
        members[k].lemma_find_valid(hay);
        lemma_set_find_from_valid(members, hay, k + 1);
    }
}

/// The first member of `members`, in member order, with any occurrence in
/// `haystack` supplies the match.
fn set_find_in<'a, P: Pattern>(members: &[P], haystack: &'a str) -> (r: Option<Match<'a>>)
    requires
        forall|j: int| 0 <= j < members@.len() ==> (#[trigger] members@[j]).wf(),
    ensures
        match r {
            Some(m) => {
                &&& m.haystack@ == haystack@
                &&& m.wf()
                &&& set_find_from(members@, haystack@, 0) == Some((m.start as int, m.end as int))
            },
            None => set_find_from(members@, haystack@, 0) is None,
        },
{
    let ghost hay = haystack@;
    let n = members.len();
    let mut k: usize = 0;
    while k < n
        invariant
            forall|j: int| 0 <= j < members@.len() ==> (#[trigger] members@[j]).wf(),
            haystack@ == hay,
            n == members@.len(),
            k <= n,
            set_find_from(members@, hay, 0) == set_find_from(members@, hay, k as int),
        decreases n - k,
    {
        if let Some(m) = vstd::slice::slice_index_get(members, k).find_in(haystack) {
            return Some(m);
        }
        k = k + 1;
    }
    None
}

impl<P: Pattern> Pattern for Vec<P> {
    /// Every member must itself be well formed.
    open spec fn wf(&self) -> bool {
        forall|j: int| 0 <= j < self@.len() ==> (#[trigger] self@[j]).wf()
    }

    /// The union of the members' matches, reported member by member: the
    /// first member with any occurrence supplies the match.
    open spec fn spec_find(&self, hay: Seq<char>) -> Option<(int, int)> {
        set_find_from(self@, hay, 0)
    }

    proof fn lemma_find_valid(&self, hay: Seq<char>) {
        lemma_set_find_from_valid(self@, hay, 0);
    }

    fn find_in<'a>(&self, haystack: &'a str) -> (r: Option<Match<'a>>) {
        set_find_in(self.as_slice(), haystack)
    }
}

impl<P: Pattern, const N: usize> Pattern for [P; N] {
    /// Every member must itself be well formed.
    open spec fn wf(&self) -> bool {
        forall|j: int| 0 <= j < self@.len() ==> (#[trigger] self@[j]).wf()
    }

    /// The union of the members' matches, reported member by member: the
    /// first member with any occurrence supplies the match.
    open spec fn spec_find(&self, hay: Seq<char>) -> Option<(int, int)> {
        set_find_from(self@, hay, 0)
    }

    proof fn lemma_find_valid(&self, hay: Seq<char>) {
        lemma_set_find_from_valid(self@, hay, 0);
    }

    fn find_in<'a>(&self, haystack: &'a str) -> (r: Option<Match<'a>>) {
        set_find_in(self.as_slice(), haystack)
    }
}

} // verus!
