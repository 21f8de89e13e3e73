//! The tokenizer engine: a greedy, priority-ordered, longest-match
//! scanning loop.
//!
//! A [`Lexer`] holds a fixed, priority-ordered rule list and a haystack,
//! and yields one token or error per step, strictly left to right. At each
//! cursor position every rule is tried for a prefix match of the current
//! window; the longest match wins, the earliest rule breaking ties. Where
//! no rule matches, the single character at the cursor is reported as an
//! error and scanning continues one position later, so a malformed region
//! yields one error per unmatched character rather than ending the scan.

use vstd::prelude::*;
use crate::pattern::{Pattern, PatternExt, spec_prefix};

verus! {

/// The bounded lookahead: a step examines at most this many characters
/// past the cursor, to cap the per-step cost of expensive predicate or
/// regex matchers on very long inputs.
pub const MAX_LENGTH: usize = 1024;

/// The candidate window a step at cursor `c` examines: the characters from
/// `c` to the end of the haystack, truncated to [`MAX_LENGTH`].
pub open spec fn window(hay: Seq<char>, c: int) -> Seq<char> {
    if c + MAX_LENGTH <= hay.len() {
        hay.subrange(c, c + MAX_LENGTH)
    } else {
        hay.subrange(c, hay.len() as int)
    }
}

/// The best rule among the first `n`, as `(rule index, match length)`: the
/// rule whose prefix match of `w` is longest, the earliest rule winning
/// ties, since only a strictly longer later match displaces the current
/// best.
pub open spec fn best_upto<M: Pattern>(rules: Seq<M>, w: Seq<char>, n: int) -> Option<(int, int)>
    decreases n,
    when 0 <= n <= rules.len()
{
    if n <= 0 {
        None
    } else {
        let prev = best_upto(rules, w, n - 1);
        match spec_prefix(&rules[n - 1], w) {
            Some(q) => if prev matches Some(p) && p.1 >= q.1 {
                prev
            } else {
                Some((n - 1, q.1))
            },
            None => prev,
        }
    }
}

/// The winning rule of a step on window `w`, with its match length.
pub open spec fn best_match<M: Pattern>(rules: Seq<M>, w: Seq<char>) -> Option<(int, int)> {
    best_upto(rules, w, rules.len() as int)
}

/// What a step at cursor `c` emits: the winning rule with its match
/// length, or the offset of the unmatched character.
pub open spec fn step_result<M: Pattern>(rules: Seq<M>, hay: Seq<char>, c: int) -> Result<
    (int, int),
    int,
> {
    match best_match(rules, window(hay, c)) {
        Some(b) => Ok(b),
        None => Err(c),
    }
}

/// Where a step at cursor `c` leaves the cursor: past the winning match,
/// or one position further on an unmatched character.
pub open spec fn step_cursor<M: Pattern>(rules: Seq<M>, hay: Seq<char>, c: int) -> int {
    match best_match(rules, window(hay, c)) {
        Some(b) => c + b.1,
        None => c + 1,
    }
}

proof fn lemma_best_upto_sound<M: Pattern>(rules: Seq<M>, w: Seq<char>, n: int)
    requires
        0 <= n <= rules.len(),
    ensures
        best_upto(rules, w, n) matches Some(b) ==> 0 <= b.0 < n && spec_prefix(&rules[b.0], w)
            == Some((0int, b.1)),
    decreases n,
{
    if n > 0 {
        lemma_best_upto_sound(rules, w, n - 1);
    }
}

/// The winner of a step really is a prefix match of its own rule: the
/// emitted token is built from the text that rule matched.
pub proof fn lemma_best_match_sound<M: Pattern>(rules: Seq<M>, w: Seq<char>)
    ensures
        best_match(rules, w) matches Some(b) ==> 0 <= b.0 < rules.len() && spec_prefix(
            &rules[b.0],
            w,
        ) == Some((0int, b.1)),
{
    lemma_best_upto_sound(rules, w, rules.len() as int);
}

/// The longest-match property: when a rule matches a prefix of the window,
/// the step's winner matches at least as long a prefix, and on equal
/// length the winner is that rule or an earlier one.
pub proof fn lemma_longest_match<M: Pattern>(rules: Seq<M>, w: Seq<char>, i: int, e: int)
    requires
        0 <= i < rules.len(),
        spec_prefix(&rules[i], w) == Some((0int, e)),
    ensures
        best_match(rules, w) matches Some(b) && b.1 >= e && (b.1 == e ==> b.0 <= i),
{
    lemma_longest_upto(rules, w, i, e, rules.len() as int);
}

proof fn lemma_longest_upto<M: Pattern>(rules: Seq<M>, w: Seq<char>, i: int, e: int, n: int)
    requires
        0 <= i < n <= rules.len(),
        spec_prefix(&rules[i], w) == Some((0int, e)),
    ensures
        best_upto(rules, w, n) matches Some(b) && b.1 >= e && (b.1 == e ==> b.0 <= i),
    decreases n,
{
    if i < n - 1 {
        lemma_longest_upto(rules, w, i, e, n - 1);
    } else {
        lemma_best_upto_sound(rules, w, n - 1);
    }
}

/// Forward progress: a step from any cursor inside the haystack moves the
/// cursor strictly forward, and never past the end.
pub proof fn lemma_step_progress<M: Pattern>(rules: Seq<M>, hay: Seq<char>, c: int)
    requires
        0 <= c < hay.len(),
        forall|i: int| 0 <= i < rules.len() ==> (#[trigger] rules[i]).wf(),
    ensures
        c < step_cursor(rules, hay, c) <= hay.len(),
{
    let w = window(hay, c);
    lemma_best_match_sound(rules, w);
    match best_match(rules, w) {
        Some(b) => rules[b.0].lemma_find_valid(w),
        None => (),
    }
}

/// The whole output of a scan from cursor `c`, one item per step until the
/// cursor reaches the haystack's end: `Ok` carries the winning rule's
/// index and the text it matched, `Err` the offset of an unmatched
/// character. The output is a function of the rules and the haystack
/// alone, so repeated scans of the same input produce the same sequence.
pub open spec fn run<M: Pattern>(rules: Seq<M>, hay: Seq<char>, c: int) -> Seq<
    Result<(int, Seq<char>), int>,
>
    decreases hay.len() - c,
    when 0 <= c && forall|i: int| 0 <= i < rules.len() ==> (#[trigger] rules[i]).wf()
{
    if c >= hay.len() {
        Seq::empty()
    } else {
        proof {
            lemma_step_progress(rules, hay, c);
        }
        let head = match step_result(rules, hay, c) {
            Ok(b) => Ok((b.0, hay.subrange(c, c + b.1))),
            Err(cc) => Err(cc),
        };
        seq![head] + run(rules, hay, step_cursor(rules, hay, c))
    }
}

/// Error recovery: where no rule matches a prefix at the cursor, the step
/// emits exactly one error, carrying that cursor, and the scan resumes one
/// position later, so the rest of the output is exactly the scan of the
/// remaining input — one malformed character costs one error item and
/// nothing else.
pub proof fn lemma_error_recovery<M: Pattern>(rules: Seq<M>, hay: Seq<char>, c: int)
    requires
        0 <= c < hay.len(),
        forall|i: int| 0 <= i < rules.len() ==> (#[trigger] rules[i]).wf(),
        best_match(rules, window(hay, c)) is None,
    ensures
        step_result(rules, hay, c) == Err::<(int, int), int>(c),
        step_cursor(rules, hay, c) == c + 1,
        run(rules, hay, c) == seq![Err::<(int, Seq<char>), int>(c)] + run(rules, hay, c + 1),
{
}

/// Termination: a scan from cursor `c` produces at most one item per
/// remaining character, so the whole output is finite and bounded by the
/// haystack length.
pub proof fn lemma_run_bounded<M: Pattern>(rules: Seq<M>, hay: Seq<char>, c: int)
    requires
        0 <= c <= hay.len(),
        forall|i: int| 0 <= i < rules.len() ==> (#[trigger] rules[i]).wf(),
    ensures
        run(rules, hay, c).len() <= hay.len() - c,
    decreases hay.len() - c,
{
    if c < hay.len() {
        lemma_step_progress(rules, hay, c);
        lemma_run_bounded(rules, hay, step_cursor(rules, hay, c));
    }
}

/// One produced token: the index of the rule that won the step, and the
/// text its pattern matched. Wiring rule indices to a user-declared token
/// enum is the caller's concern, outside this engine.
#[derive(Debug, Clone, PartialEq)]
pub struct Token {
    /// The index, in the priority-ordered rule list, of the winning rule.
    pub rule: usize,
    /// The text the winning rule matched.
    pub text: String,
}

/// The character standing for the decimal digit `d`.
pub open spec fn digit_char(d: nat) -> char {
    if d == 0 {
        '0'
    } else if d == 1 {
        '1'
    } else if d == 2 {
        '2'
    } else if d == 3 {
        '3'
    } else if d == 4 {
        '4'
    } else if d == 5 {
        '5'
    } else if d == 6 {
        '6'
    } else if d == 7 {
        '7'
    } else if d == 8 {
        '8'
    } else {
        '9'
    }
}

/// The decimal digits of `n`, most significant first, with no leading
/// zeros.
pub open spec fn dec_digits(n: nat) -> Seq<char>
    decreases n,
{
    if n < 10 {
        seq![digit_char(n)]
    } else {
        dec_digits(n / 10).push(digit_char(n % 10))
    }
}

/// The character standing for the decimal digit `d`, as a string slice.
fn digit_str(d: usize) -> (s: &'static str)
    requires
        d < 10,
    ensures
        s@ == seq![digit_char(d as nat)],
{
    proof {
        reveal_strlit("0");
        reveal_strlit("1");
        reveal_strlit("2");
        reveal_strlit("3");
        reveal_strlit("4");
        reveal_strlit("5");
        reveal_strlit("6");
        reveal_strlit("7");
        reveal_strlit("8");
        reveal_strlit("9");
    }
    let s = if d == 0 {
        "0"
    } else if d == 1 {
        "1"
    } else if d == 2 {
        "2"
    } else if d == 3 {
        "3"
    } else if d == 4 {
        "4"
    } else if d == 5 {
        "5"
    } else if d == 6 {
        "6"
    } else if d == 7 {
        "7"
    } else {
        "8"
    };
    if d == 9 {
        proof {
            assert("9"@ =~= seq![digit_char(d as nat)]);
        }
        "9"
    } else {
        proof {
            assert(s@ =~= seq![digit_char(d as nat)]);
        }
        s
    }
}

/// Render `n` in decimal.
fn decimal_of(n: usize) -> (s: String)
    ensures
        s@ == dec_digits(n as nat),
    decreases n,
{
    if n < 10 {
        digit_str(n).to_owned()
    } else {
        let s = decimal_of(n / 10);
        let t = s.concat(digit_str(n % 10));
        proof {
            assert(t@ =~= dec_digits(n as nat));
        }
        t
    }
}

/// An unmatched character: the scan found no rule matching a prefix at
/// `cursor`, reported that single position, and went on one position
/// later.
#[derive(Debug, Clone, PartialEq)]
pub struct LexerError {
    /// The offset of the unexpected character in the haystack.
    pub cursor: usize,
}

/// The error text for the unexpected character at offset `c` of `hay`.
pub open spec fn error_message_spec(hay: Seq<char>, c: int) -> Seq<char> {
    "unexpected character '"@ + hay.subrange(c, c + 1) + "' at index "@ + dec_digits(c as nat)
}

impl LexerError {
    /// A human-readable message naming the unexpected character and its
    /// offset in the haystack the scan read.
    pub fn message(&self, haystack: &str) -> (s: String)
        requires
            self.cursor < haystack@.len(),
        ensures
            s@ == error_message_spec(haystack@, self.cursor as int),
    {
        // Called for its bound alone: the character count fits in usize.
        let _len: usize = haystack.unicode_len();
        let mut s = "unexpected character '".to_owned();
        s.append(haystack.substring_char(self.cursor, self.cursor + 1));
        s.append("' at index ");
        let d = decimal_of(self.cursor);
        s.append(d.as_str());
        s
    }
}

/// The outcome of one step of the scan.
pub type LexerResult = Result<Token, LexerError>;

/// The abstraction of one produced item, as the scan's output sequence
/// records it: the winning rule with its matched text, or the offset of an
/// unmatched character.
pub open spec fn item_abs(item: LexerResult) -> Result<(int, Seq<char>), int> {
    match item {
        Ok(t) => Ok((t.rule as int, t.text@)),
        Err(e) => Err(e.cursor as int),
    }
}

/// The tokenizer: a fixed, priority-ordered rule list, the haystack, and a
/// cursor that only moves forward. Each call of [`Lexer::next`] performs
/// one step; the scan ends when the cursor reaches the haystack's end.
pub struct Lexer<'a, M: Pattern> {
    haystack: &'a str,
    len: usize,
    cursor: usize,
    rules: Vec<M>,
}

impl<'a, M: Pattern> Lexer<'a, M> {
    /// The haystack being scanned.
    pub closed spec fn hay(&self) -> Seq<char> {
        self.haystack@
    }

    /// The current cursor position.
    pub closed spec fn cur(&self) -> int {
        self.cursor as int
    }

    /// The priority-ordered rule list.
    pub closed spec fn rule_seq(&self) -> Seq<M> {
        self.rules@
    }

    /// The stored length really is the haystack's length.
    pub closed spec fn len_ok(&self) -> bool {
        self.len == self.hay().len()
    }

    /// The cursor stays inside the haystack, the stored length is right,
    /// and every rule is well formed.
    pub open spec fn wf(&self) -> bool {
        &&& 0 <= self.cur() <= self.hay().len()
        &&& self.len_ok()
        &&& forall|i: int| 0 <= i < self.rule_seq().len() ==> (#[trigger] self.rule_seq()[i]).wf()
    }

    /// Perform one step of the scan: try every rule for a prefix match of
    /// the current window, emit the winning rule's token or an error for
    /// the single unmatched character, and advance the cursor; yield
    /// nothing once the haystack is exhausted.
    pub fn next(&mut self) -> (r: Option<LexerResult>)
        requires
            old(self).wf(),
        ensures
            final(self).wf(),
            final(self).hay() == old(self).hay(),
            final(self).rule_seq() == old(self).rule_seq(),
            old(self).cur() == old(self).hay().len() ==> r is None && final(self).cur() == old(
                self,
            ).cur(),
            old(self).cur() < old(self).hay().len() ==> {
                &&& final(self).cur() == step_cursor(
                    old(self).rule_seq(),
                    old(self).hay(),
                    old(self).cur(),
                )
                &&& old(self).cur() < final(self).cur() <= old(self).hay().len()
                &&& match step_result(old(self).rule_seq(), old(self).hay(), old(self).cur()) {
                    Ok(b) => r matches Some(Ok(t)) && t.rule == b.0 && t.text@ == old(
                        self,
                    ).hay().subrange(old(self).cur(), old(self).cur() + b.1),
                    Err(c) => r matches Some(Err(e)) && e.cursor == c,
                }
            },
    {
        let ghost hay = self.haystack@;
        let ghost grules = self.rules@;
        let hs: &'a str = self.haystack;
        let n = self.len;
        if self.cursor >= n {
            return None;
        }
        let start = self.cursor;
        let end = if n - start >= MAX_LENGTH {
            start + MAX_LENGTH
        } else {
            n
        };
        let w = hs.substring_char(start, end);
        proof {
            assert(w@ =~= window(hay, start as int));
        }
        let nr = self.rules.len();
        let mut best_len: usize = 0;
        let mut best_rule: usize = 0;
        let mut k: usize = 0;
        while k < nr
            invariant
                self.rules@ == grules,
                nr == grules.len(),
                k <= nr,
                forall|i: int| 0 <= i < grules.len() ==> (#[trigger] grules[i]).wf(),
                best_len <= w@.len(),
                w@.len() <= usize::MAX,
                if best_len == 0 {
                    best_upto(grules, w@, k as int) is None
                } else {
                    best_upto(grules, w@, k as int) == Some((best_rule as int, best_len as int))
                },
            decreases nr - k,
        {
            if let Some(m) = self.rules[k].find_prefix_in(w) {
                let l = m.len();
                if l > best_len {
                    best_len = l;
                    best_rule = k;
                }
            }
            k = k + 1;
        }
        if best_len > 0 {
            let text = w.substring_char(0, best_len).to_owned();
            proof {
                assert(text@ =~= hay.subrange(start as int, start + best_len));
            }
            self.cursor = start + best_len;
            Some(Ok(Token { rule: best_rule, text }))
        } else {
            self.cursor = start + 1;
            Some(Err(LexerError { cursor: start }))
        }
    }

    /// Scan to the end of the haystack and return every remaining item in
    /// order: exactly the output sequence the specification describes,
    /// finite and in left-to-right input order.
    pub fn collect_remaining(&mut self) -> (items: Vec<LexerResult>)
        requires
            old(self).wf(),
        ensures
            final(self).wf(),
            final(self).hay() == old(self).hay(),
            final(self).rule_seq() == old(self).rule_seq(),
            final(self).cur() == final(self).hay().len(),
            items@.map_values(|it: LexerResult| item_abs(it)) == run(
                old(self).rule_seq(),
                old(self).hay(),
                old(self).cur(),
            ),
    {
        let ghost hay0 = self.hay();
        let ghost rules0 = self.rule_seq();
        let ghost c0 = self.cur();
        let mut items: Vec<LexerResult> = Vec::new();
        loop
            invariant
                self.wf(),
                self.hay() == hay0,
                self.rule_seq() == rules0,
                c0 <= self.cur(),
                run(rules0, hay0, c0) == items@.map_values(|it: LexerResult| item_abs(it)) + run(
                    rules0,
                    hay0,
                    self.cur(),
                ),
            ensures
                self.wf(),
                self.hay() == hay0,
                self.rule_seq() == rules0,
                self.cur() == hay0.len(),
                items@.map_values(|it: LexerResult| item_abs(it)) == run(rules0, hay0, c0),
            decreases hay0.len() - self.cur(),
        {
            let ghost c = self.cur();
            let ghost items_before = items@;
            match self.next() {
                Some(item) => {
                    items.push(item);
                    proof {
                        let f = |it: LexerResult| item_abs(it);
                        assert(items@.map_values(f) =~= items_before.map_values(f).push(
                            item_abs(item),
                        ));
                        assert(run(rules0, hay0, c) == seq![item_abs(item)] + run(
                            rules0,
                            hay0,
                            self.cur(),
                        ));
                        assert(run(rules0, hay0, c0) == items@.map_values(f) + run(
                            rules0,
                            hay0,
                            self.cur(),
                        )) by {
                            assert(items_before.map_values(f) + run(rules0, hay0, c)
                                =~= items@.map_values(f) + run(rules0, hay0, self.cur()));
                        }
                    }
                },
                None => {
                    proof {
                        assert(run(rules0, hay0, self.cur()) =~= Seq::<
                            Result<(int, Seq<char>), int>,
                        >::empty());
                        assert(items@.map_values(|it: LexerResult| item_abs(it)) =~= run(
                            rules0,
                            hay0,
                            c0,
                        ));
                    }
                    break ;
                },
            }
        }
        items
    }
}

/// Begin a scan of `haystack` with the given priority-ordered rule list,
/// at cursor zero.
pub fn tokenize<'a, M: Pattern>(rules: Vec<M>, haystack: &'a str) -> (lex: Lexer<'a, M>)
    requires
        forall|i: int| 0 <= i < rules@.len() ==> (#[trigger] rules@[i]).wf(),
    ensures
        lex.wf(),
        lex.cur() == 0,
        lex.hay() == haystack@,
        lex.rule_seq() == rules@,
{
    let len = haystack.unicode_len();
    Lexer { haystack, len, cursor: 0, rules }
}

} // verus!
