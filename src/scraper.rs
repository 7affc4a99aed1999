//! The usage scraper: turns a session's terminal output into usage records.
//!
//! Each session has a pending-line buffer and a tally of the fields seen so
//! far. A tally is complete once it holds a cost and all three token counts,
//! and either a duration or the current line is blank; it is then reported
//! and starts over empty.

use vstd::prelude::*;
use crate::lines::{feed, lines_view, no_newline, split_lines};
use crate::numbers::{
    compact_normal, compact_value, decimal_scaled, i64_text_value, opt_int, parse_compact_int,
    parse_cost_cents, parse_i64, parse_int_with_commas,
};
use crate::text::{
    blank, chars_of, contains, has_infix, is_blank, opt_chars, string_of, without_commas,
};

verus! {

/// A summary's cost line, such as `Total cost: $1.23`.
pub const COST_PATTERN: &'static str = r"Total cost:\s*\$(\d+\.\d{2})";

/// A summary's token line, such as `Total tokens: 4,500 (in: 4.0K, out: 500)`.
pub const TOKENS_PATTERN: &'static str =
    r"Total tokens:\s*([\d,]+)\s*\(in:\s*([\d.,KM]+),\s*out:\s*([\d.,KM]+)\)";

/// A summary's duration line, such as `Duration: 2m 15s` or `Duration: 9s`.
pub const DURATION_PATTERN: &'static str = r"Duration:\s*(?:(\d+)m)?\s*(\d+)s";

/// The label stored with every record this scraper produces.
pub const AGENT_LABEL: &'static str = "coding-assistant";

/// The capture groups of the leftmost-first match of `pattern` in `text`
/// (group 0 is the whole match), or `None` when nothing matches or the
/// pattern does not compile.
pub uninterp spec fn regex_groups(pattern: Seq<char>, text: Seq<char>) -> Option<
    Seq<Option<Seq<char>>>,
>;

/// The bytes left once terminal escape sequences are removed.
pub uninterp spec fn ansi_stripped(data: Seq<u8>) -> Seq<u8>;

/// The text that bytes decode to, invalid UTF-8 replaced by U+FFFD.
pub uninterp spec fn utf8_lossy(data: Seq<u8>) -> Seq<char>;

/// Relies on `regex::Regex::new` and `regex::Regex::captures`: compiles the
/// pattern and reports the groups of its leftmost-first match.
#[verifier::external_body]
fn capture_groups(pattern: &str, text: &str) -> (r: Option<Vec<Option<String>>>)
    ensures
        groups_view(r) == regex_groups(pattern@, text@),
{
    let re = regex::Regex::new(pattern).ok()?;
    let caps = re.captures(text)?;
    Some(caps.iter().map(|m| m.map(|m| m.as_str().to_string())).collect())
}

/// Relies on `strip_ansi_escapes::strip`: removes terminal escape sequences.
#[verifier::external_body]
fn strip_escapes(data: &[u8]) -> (r: Vec<u8>)
    ensures
        r@ == ansi_stripped(data@),
{
    strip_ansi_escapes::strip(data)
}

/// Relies on `String::from_utf8_lossy`: decodes, replacing invalid sequences.
#[verifier::external_body]
fn decode_lossy(data: &[u8]) -> (r: String)
    ensures
        r@ == utf8_lossy(data@),
{
    String::from_utf8_lossy(data).to_string()
}

pub open spec fn groups_view(g: Option<Vec<Option<String>>>) -> Option<Seq<Option<Seq<char>>>> {
    match g {
        Some(v) => Some(v@.map_values(|o: Option<String>| opt_chars(o))),
        None => None,
    }
}

/// Group `i` of a match, if the match and that group are there.
pub open spec fn group(g: Option<Seq<Option<Seq<char>>>>, i: int) -> Option<Seq<char>> {
    match g {
        Some(v) => if 0 <= i < v.len() {
            v[i]
        } else {
            None
        },
        None => None,
    }
}

/// The three pattern matches of one line.
pub struct Matches {
    pub cost: Option<Seq<Option<Seq<char>>>>,
    pub tokens: Option<Seq<Option<Seq<char>>>>,
    pub duration: Option<Seq<Option<Seq<char>>>>,
}

/// The fields gathered so far for the record being built.
pub struct Tally {
    pub cost: Option<int>,
    pub tokens_in: Option<int>,
    pub tokens_out: Option<int>,
    pub tokens_total: Option<int>,
    pub duration: Option<int>,
    pub raw: Seq<Seq<char>>,
}

/// A completed record.
pub struct Usage {
    pub session: Seq<char>,
    pub cost_cents: int,
    pub tokens_in: int,
    pub tokens_out: int,
    pub tokens_total: int,
    pub duration: Option<int>,
    pub raw: Seq<char>,
}

pub open spec fn empty_tally() -> Tally {
    Tally {
        cost: None,
        tokens_in: None,
        tokens_out: None,
        tokens_total: None,
        duration: None,
        raw: Seq::empty(),
    }
}

pub open spec fn matches_of(line: Seq<char>) -> Matches {
    Matches {
        cost: regex_groups(COST_PATTERN@, line),
        tokens: regex_groups(TOKENS_PATTERN@, line),
        duration: regex_groups(DURATION_PATTERN@, line),
    }
}

/// A new value when one was parsed, else the old one.
pub open spec fn keep_or(new: Option<int>, old: Option<int>) -> Option<int> {
    match new {
        Some(v) => Some(v),
        None => old,
    }
}

pub open spec fn parsed_with(g: Option<Seq<char>>, f: spec_fn(Seq<char>) -> Option<int>) -> Option<
    int,
> {
    match g {
        Some(t) => f(t),
        None => None,
    }
}

/// A duration part: its value, or 0 when absent or unreadable.
pub open spec fn part_or_zero(g: Option<Seq<char>>) -> int {
    match parsed_with(g, |t: Seq<char>| i64_text_value(t)) {
        Some(v) => v,
        None => 0,
    }
}

pub open spec fn clamp_i64(v: int) -> int {
    if v > i64::MAX {
        i64::MAX as int
    } else if v < i64::MIN {
        i64::MIN as int
    } else {
        v
    }
}

/// The line mentions one of the three summary labels.
pub open spec fn is_summary_line(line: Seq<char>) -> bool {
    has_infix(line, "Total cost:"@) || has_infix(line, "Total tokens:"@) || has_infix(
        line,
        "Duration:"@,
    )
}

/// The tally once `line`, with matches `m`, has been taken in.
pub open spec fn absorb(t: Tally, line: Seq<char>, m: Matches) -> Tally {
    Tally {
        cost: keep_or(parsed_with(group(m.cost, 1), |g: Seq<char>| decimal_scaled(g, 2)), t.cost),
        tokens_total: keep_or(
            parsed_with(group(m.tokens, 1), |g: Seq<char>| i64_text_value(without_commas(g))),
            t.tokens_total,
        ),
        tokens_in: keep_or(
            parsed_with(group(m.tokens, 2), |g: Seq<char>| compact_value(compact_normal(g))),
            t.tokens_in,
        ),
        tokens_out: keep_or(
            parsed_with(group(m.tokens, 3), |g: Seq<char>| compact_value(compact_normal(g))),
            t.tokens_out,
        ),
        duration: if m.duration is Some {
            Some(
                clamp_i64(part_or_zero(group(m.duration, 1)) * 60 + part_or_zero(
                    group(m.duration, 2),
                )),
            )
        } else {
            t.duration
        },
        raw: if is_summary_line(line) {
            t.raw.push(line)
        } else {
            t.raw
        },
    }
}

/// Cost and the three token counts are there, and a duration is there or
/// the current line is blank.
pub open spec fn is_complete(t: Tally, line: Seq<char>) -> bool {
    t.cost is Some && t.tokens_total is Some && t.tokens_in is Some && t.tokens_out is Some && (
    t.duration is Some || is_blank(line))
}

/// The matched lines, one per line, joined by newlines.
pub open spec fn join_lines(raw: Seq<Seq<char>>) -> Seq<char>
    decreases raw.len(),
{
    if raw.len() == 0 {
        Seq::empty()
    } else if raw.len() == 1 {
        raw[0]
    } else {
        join_lines(raw.drop_last()) + seq!['\n'] + raw.last()
    }
}

pub open spec fn usage_of(session: Seq<char>, t: Tally) -> Usage {
    Usage {
        session: session,
        cost_cents: t.cost.unwrap(),
        tokens_in: t.tokens_in.unwrap(),
        tokens_out: t.tokens_out.unwrap(),
        tokens_total: t.tokens_total.unwrap(),
        duration: t.duration,
        raw: join_lines(t.raw),
    }
}

/// One line taken in with the given matches: the next tally and the record
/// it completes, if any. A completed tally starts over empty.
pub open spec fn step_with(session: Seq<char>, t: Tally, line: Seq<char>, m: Matches) -> (
    Tally,
    Option<Usage>,
) {
    let a = absorb(t, line, m);
    if is_complete(a, line) {
        (empty_tally(), Some(usage_of(session, a)))
    } else {
        (a, None)
    }
}

/// Lines taken in one after another: the final tally and the records
/// completed on the way, in order.
pub open spec fn run_lines(session: Seq<char>, t: Tally, lines: Seq<Seq<char>>) -> (
    Tally,
    Seq<Usage>,
)
    decreases lines.len(),
{
    if lines.len() == 0 {
        (t, Seq::empty())
    } else {
        let (t0, rs) = run_lines(session, t, lines.drop_last());
        let (t1, r) = step_with(session, t0, lines.last(), matches_of(lines.last()));
        match r {
            Some(u) => (t1, rs.push(u)),
            None => (t1, rs),
        }
    }
}

/// The pattern matches of one line, as the matcher reported them.
pub struct LineMatches {
    pub cost: Option<Vec<Option<String>>>,
    pub tokens: Option<Vec<Option<String>>>,
    pub duration: Option<Vec<Option<String>>>,
}

impl View for LineMatches {
    type V = Matches;

    open spec fn view(&self) -> Matches {
        Matches {
            cost: groups_view(self.cost),
            tokens: groups_view(self.tokens),
            duration: groups_view(self.duration),
        }
    }
}

/// A completed usage record, ready to be stored.
pub struct UsageCapture {
    pub session_id: String,
    pub agent: String,
    pub cost_cents: i64,
    pub tokens_in: i64,
    pub tokens_out: i64,
    pub tokens_total: i64,
    pub duration_s: Option<i64>,
    pub raw_output: String,
}

impl View for UsageCapture {
    type V = Usage;

    open spec fn view(&self) -> Usage {
        Usage {
            session: self.session_id@,
            cost_cents: self.cost_cents as int,
            tokens_in: self.tokens_in as int,
            tokens_out: self.tokens_out as int,
            tokens_total: self.tokens_total as int,
            duration: opt_int(self.duration_s),
            raw: self.raw_output@,
        }
    }
}

pub open spec fn opt_usage(o: Option<UsageCapture>) -> Option<Usage> {
    match o {
        Some(u) => Some(u@),
        None => None,
    }
}

pub open spec fn usages_view(v: Seq<UsageCapture>) -> Seq<Usage> {
    v.map_values(|u: UsageCapture| u@)
}

/// The fields of one session's record in progress.
pub struct ParseState {
    pub cost_cents: Option<i64>,
    pub tokens_in: Option<i64>,
    pub tokens_out: Option<i64>,
    pub tokens_total: Option<i64>,
    pub duration_s: Option<i64>,
    pub raw_lines: Vec<Vec<char>>,
}

impl View for ParseState {
    type V = Tally;

    open spec fn view(&self) -> Tally {
        Tally {
            cost: opt_int(self.cost_cents),
            tokens_in: opt_int(self.tokens_in),
            tokens_out: opt_int(self.tokens_out),
            tokens_total: opt_int(self.tokens_total),
            duration: opt_int(self.duration_s),
            raw: lines_view(self.raw_lines@),
        }
    }
}

fn group_text(g: &Option<Vec<Option<String>>>, i: usize) -> (r: Option<String>)
    ensures
        opt_chars(r) == group(groups_view(*g), i as int),
{
    match g {
        Some(v) => {
            if i < v.len() {
                match &v[i] {
                    Some(s) => Some(s.clone()),
                    None => None,
                }
            } else {
                None
            }
        },
        None => None,
    }
}

fn duration_part(g: &Option<Vec<Option<String>>>, i: usize) -> (r: i64)
    ensures
        r as int == part_or_zero(group(groups_view(*g), i as int)),
{
    match group_text(g, i) {
        Some(t) => {
            let cs = chars_of(t.as_str());
            match parse_i64(&cs) {
                Some(v) => v,
                None => 0,
            }
        },
        None => 0,
    }
}

fn joined_text(raw: &Vec<Vec<char>>) -> (r: String)
    ensures
        r@ == join_lines(lines_view(raw@)),
{
    let mut out: Vec<char> = Vec::new();
    let mut i: usize = 0;
    while i < raw.len()
        invariant
            i <= raw.len(),
            out@ == join_lines(lines_view(raw@).take(i as int)),
        decreases raw.len() - i,
    {
        let ghost before = out@;
        assert(lines_view(raw@).take(i + 1).drop_last() =~= lines_view(raw@).take(i as int));
        if i > 0 {
            out.push('\n');
        }
        let line = &raw[i];
        let mut j: usize = 0;
        while j < line.len()
            invariant
                j <= line.len(),
                out@ =~= (if i > 0 {
                    before + seq!['\n']
                } else {
                    before
                }) + line@.take(j as int),
            decreases line.len() - j,
        {
            out.push(line[j]);
            j = j + 1;
        }
        assert(line@.take(line.len() as int) =~= line@);
        proof {
            let lv = lines_view(raw@).take(i + 1);
            assert(lv.last() == line@);
            if i == 0 {
                assert(lv.len() == 1);
                assert(before =~= Seq::<char>::empty());
                assert(out@ =~= lv[0]);
            }
        }
        i = i + 1;
    }
    assert(lines_view(raw@).take(raw.len() as int) =~= lines_view(raw@));
    string_of(&out)
}

impl ParseState {
    pub fn new() -> (r: ParseState)
        ensures
            r@ == empty_tally(),
    {
        let r = ParseState {
            cost_cents: None,
            tokens_in: None,
            tokens_out: None,
            tokens_total: None,
            duration_s: None,
            raw_lines: Vec::new(),
        };
        assert(r@.raw =~= Seq::<Seq<char>>::empty());
        r
    }

    /// Takes in one line whose pattern matches are `m`, and returns the
    /// record it completes, if any.
    pub fn apply(&mut self, session_id: &str, line: &Vec<char>, m: &LineMatches) -> (r: Option<
        UsageCapture,
    >)
        ensures
            (final(self)@, opt_usage(r)) == step_with(session_id@, old(self)@, line@, m@),
            r matches Some(u) ==> u.agent@ == AGENT_LABEL@,
    {
        if contains(line, "Total cost:") || contains(line, "Total tokens:") || contains(
            line,
            "Duration:",
        ) {
            let ghost before = lines_view(self.raw_lines@);
            self.raw_lines.push(line.clone());
            assert(lines_view(self.raw_lines@) =~= before.push(line@));
        }
        match group_text(&m.cost, 1) {
            Some(t) => match parse_cost_cents(t.as_str()) {
                Some(v) => {
                    self.cost_cents = Some(v);
                },
                None => {},
            },
            None => {},
        }
        match group_text(&m.tokens, 1) {
            Some(t) => match parse_int_with_commas(t.as_str()) {
                Some(v) => {
                    self.tokens_total = Some(v);
                },
                None => {},
            },
            None => {},
        }
        match group_text(&m.tokens, 2) {
            Some(t) => match parse_compact_int(t.as_str()) {
                Some(v) => {
                    self.tokens_in = Some(v);
                },
                None => {},
            },
            None => {},
        }
        match group_text(&m.tokens, 3) {
            Some(t) => match parse_compact_int(t.as_str()) {
                Some(v) => {
                    self.tokens_out = Some(v);
                },
                None => {},
            },
            None => {},
        }
        if m.duration.is_some() {
            let mins = duration_part(&m.duration, 1);
            let secs = duration_part(&m.duration, 2);
            let total: i128 = (mins as i128) * 60 + (secs as i128);
            let d: i64 = if total > i64::MAX as i128 {
                i64::MAX
            } else if total < i64::MIN as i128 {
                i64::MIN
            } else {
                total as i64
            };
            self.duration_s = Some(d);
        }
        assert(self@ == absorb(old(self)@, line@, m@));
        let done = self.cost_cents.is_some() && self.tokens_total.is_some()
            && self.tokens_in.is_some() && self.tokens_out.is_some() && (self.duration_s.is_some()
            || blank(line));
        if done {
            let u = UsageCapture {
                session_id: session_id.to_owned(),
                agent: AGENT_LABEL.to_owned(),
                cost_cents: self.cost_cents.unwrap(),
                tokens_in: self.tokens_in.unwrap(),
                tokens_out: self.tokens_out.unwrap(),
                tokens_total: self.tokens_total.unwrap(),
                duration_s: self.duration_s,
                raw_output: joined_text(&self.raw_lines),
            };
            *self = ParseState::new();
            Some(u)
        } else {
            None
        }
    }
}

/// Takes in one line with the matches the patterns give on it.
pub fn parse_line(state: &mut ParseState, session_id: &str, line: &Vec<char>) -> (r: Option<
    UsageCapture,
>)
    ensures
        (final(state)@, opt_usage(r)) == step_with(session_id@, old(state)@, line@, matches_of(line@)),
{
    let text = string_of(line);
    let m = LineMatches {
        cost: capture_groups(COST_PATTERN, text.as_str()),
        tokens: capture_groups(TOKENS_PATTERN, text.as_str()),
        duration: capture_groups(DURATION_PATTERN, text.as_str()),
    };
    state.apply(session_id, line, &m)
}

/// One session's scraping state: text after the last newline, and the
/// record in progress.
pub struct ScrapeSlot {
    pub session_id: String,
    pub pending: Vec<char>,
    pub state: ParseState,
}

/// Per-session scraping of terminal output.
pub struct TokenScraper {
    slots: Vec<ScrapeSlot>,
}

/// What is kept for a session never seen: no pending text, an empty tally.
pub open spec fn fresh_entry() -> (Seq<char>, Tally) {
    (Seq::empty(), empty_tally())
}

impl TokenScraper {
    /// No two slots belong to one session.
    pub closed spec fn wf(&self) -> bool {
        forall|i: int, j: int|
            0 <= i < self.slots.len() && 0 <= j < self.slots.len() && i != j
                ==> #[trigger] self.slots@[i].session_id@ != #[trigger] self.slots@[j].session_id@
    }

    pub closed spec fn has(&self, id: Seq<char>) -> bool {
        exists|i: int| 0 <= i < self.slots.len() && #[trigger] self.slots@[i].session_id@ == id
    }

    /// The pending text and tally kept for a session; a session never seen
    /// has empty ones.
    pub closed spec fn entry(&self, id: Seq<char>) -> (Seq<char>, Tally) {
        if self.has(id) {
            let i = choose|i: int|
                0 <= i < self.slots.len() && #[trigger] self.slots@[i].session_id@ == id;
            (self.slots@[i].pending@, self.slots@[i].state@)
        } else {
            fresh_entry()
        }
    }

    pub fn new() -> (r: TokenScraper)
        ensures
            r.wf(),
            forall|id: Seq<char>| #[trigger] r.entry(id) == fresh_entry(),
    {
        TokenScraper { slots: Vec::new() }
    }

    fn find(&self, id: &str) -> (r: Option<usize>)
        ensures
            match r {
                Some(i) => i < self.slots.len() && self.slots@[i as int].session_id@ == id@,
                None => forall|i: int|
                    0 <= i < self.slots.len() ==> #[trigger] self.slots@[i].session_id@ != id@,
            },
    {
        let key = id.to_owned();
        let mut i: usize = 0;
        while i < self.slots.len()
            invariant
                i <= self.slots.len(),
                key@ == id@,
                forall|j: int| 0 <= j < i ==> #[trigger] self.slots@[j].session_id@ != id@,
            decreases self.slots.len() - i,
        {
            if self.slots[i].session_id == key {
                return Some(i);
            }
            i = i + 1;
        }
        None
    }

    /// Takes the session's slot out, or makes a fresh one.
    fn take_slot(&mut self, id: &str) -> (r: ScrapeSlot)
        requires
            old(self).wf(),
        ensures
            final(self).wf(),
            r.session_id@ == id@,
            (r.pending@, r.state@) == old(self).entry(id@),
            !final(self).has(id@),
            forall|x: Seq<char>| x != id@ ==> #[trigger] final(self).entry(x) == old(self).entry(x),
    {
        match self.find(id) {
            Some(i) => {
                let ghost old_slots = self.slots@;
                let slot = self.slots.remove(i);
                proof {
                    assert(old(self).has(id@));
                    let c = choose|k: int|
                        0 <= k < old_slots.len() && #[trigger] old_slots[k].session_id@ == id@;
                    assert(c == i);
                    assert forall|x: Seq<char>| x != id@ implies #[trigger] self.entry(x)
                        == old(self).entry(x) by {
                        self.lemma_entry_after_remove(old(self), i as int, x);
                    }
                    assert(!self.has(id@)) by {
                        if self.has(id@) {
                            let k = choose|k: int|
                                0 <= k < self.slots.len() && #[trigger] self.slots@[k].session_id@
                                    == id@;
                            if k < i {
                                assert(old_slots[k] == self.slots@[k]);
                            } else {
                                assert(old_slots[k + 1] == self.slots@[k]);
                            }
                        }
                    }
                }
                slot
            },
            None => {
                assert(!self.has(id@));
                ScrapeSlot { session_id: id.to_owned(), pending: Vec::new(), state: ParseState::new() }
            },
        }
    }

    proof fn lemma_entry_after_remove(&self, prev: &TokenScraper, i: int, x: Seq<char>)
        requires
            prev.wf(),
            0 <= i < prev.slots.len(),
            self.slots@ == prev.slots@.remove(i),
            x != prev.slots@[i].session_id@,
        ensures
            self.wf(),
            self.entry(x) == prev.entry(x),
    {
        let s = self.slots@;
        let p = prev.slots@;
        assert forall|a: int, b: int|
            0 <= a < s.len() && 0 <= b < s.len() && a != b implies #[trigger] s[a].session_id@
            != #[trigger] s[b].session_id@ by {
            let pa = if a < i { a } else { a + 1 };
            let pb = if b < i { b } else { b + 1 };
            assert(s[a] == p[pa]);
            assert(s[b] == p[pb]);
        }
        if prev.has(x) {
            let k = choose|k: int| 0 <= k < p.len() && #[trigger] p[k].session_id@ == x;
            assert(k != i);
            let sk = if k < i { k } else { k - 1 };
            assert(s[sk] == p[k]);
            assert(self.has(x));
            let c = choose|c: int| 0 <= c < s.len() && #[trigger] s[c].session_id@ == x;
            let pc = if c < i { c } else { c + 1 };
            assert(s[c] == p[pc]);
        } else {
            assert(!self.has(x)) by {
                if self.has(x) {
                    let c = choose|c: int| 0 <= c < s.len() && #[trigger] s[c].session_id@ == x;
                    let pc = if c < i { c } else { c + 1 };
                    assert(s[c] == p[pc]);
                }
            }
        }
    }

    /// Puts a slot back for a session that has none.
    fn put_slot(&mut self, slot: ScrapeSlot)
        requires
            old(self).wf(),
            !old(self).has(slot.session_id@),
        ensures
            final(self).wf(),
            final(self).entry(slot.session_id@) == (slot.pending@, slot.state@),
            forall|x: Seq<char>| x != slot.session_id@ ==> #[trigger] final(self).entry(x) == old(self).entry(x),
    {
        let ghost id = slot.session_id@;
        let ghost pv = (slot.pending@, slot.state@);
        let ghost old_slots = self.slots@;
        self.slots.push(slot);
        proof {
            let s = self.slots@;
            let n = old_slots.len();
            assert forall|a: int, b: int|
                0 <= a < s.len() && 0 <= b < s.len() && a != b implies #[trigger] s[a].session_id@
                != #[trigger] s[b].session_id@ by {
                if a < n && b < n {
                    assert(s[a] == old_slots[a] && s[b] == old_slots[b]);
                } else if a < n {
                    assert(s[a] == old_slots[a]);
                    assert(!old(self).has(id));
                } else if b < n {
                    assert(s[b] == old_slots[b]);
                    assert(!old(self).has(id));
                }
            }
            assert(s[n as int].session_id@ == id);
            assert(self.has(id));
            let c = choose|c: int| 0 <= c < s.len() && #[trigger] s[c].session_id@ == id;
            if c < n {
                assert(s[c] == old_slots[c]);
                assert(old(self).has(id));
            }
            assert(c == n);
            assert forall|x: Seq<char>| x != id implies #[trigger] self.entry(x) == old(self).entry(x) by {
                if old(self).has(x) {
                    let k = choose|k: int| 0 <= k < old_slots.len() && #[trigger] old_slots[k].session_id@ == x;
                    assert(s[k] == old_slots[k]);
                    assert(self.has(x));
                    let c2 = choose|c2: int| 0 <= c2 < s.len() && #[trigger] s[c2].session_id@ == x;
                    assert(c2 != n);
                    assert(s[c2] == old_slots[c2]);
                    assert(c2 == k);
                } else {
                    assert(!self.has(x)) by {
                        if self.has(x) {
                            let c2 = choose|c2: int| 0 <= c2 < s.len() && #[trigger] s[c2].session_id@ == x;
                            if c2 < n {
                                assert(s[c2] == old_slots[c2]);
                            }
                        }
                    }
                }
            }
        }
    }
}


impl TokenScraper {
    /// Takes in a session's decoded, escape-free text and returns the records
    /// it completes, in order.
    pub fn ingest_text(&mut self, session_id: &str, text: &str) -> (r: Vec<UsageCapture>)
        requires
            old(self).wf(),
        ensures
            final(self).wf(),
            ({
                let (lines, pending) = feed(Seq::empty(), old(self).entry(session_id@).0, text@);
                let (t, rs) = run_lines(session_id@, old(self).entry(session_id@).1, lines);
                &&& final(self).entry(session_id@) == (pending, t)
                &&& usages_view(r@) == rs
            }),
            forall|x: Seq<char>|
                x != session_id@ ==> #[trigger] final(self).entry(x) == old(self).entry(x),
    {
        let chars = chars_of(text);
        let mut slot = self.take_slot(session_id);
        let lines = split_lines(&mut slot.pending, &chars);
        let ghost lv = lines_view(lines@);
        let ghost t0 = slot.state@;
        let ghost pend = slot.pending@;
        let mut out: Vec<UsageCapture> = Vec::new();
        let mut i: usize = 0;
        assert(lv.take(0) =~= Seq::<Seq<char>>::empty());
        assert(usages_view(out@) =~= Seq::<Usage>::empty());
        while i < lines.len()
            invariant
                i <= lines.len(),
                lv == lines_view(lines@),
                slot.session_id@ == session_id@,
                slot.pending@ == pend,
                (slot.state@, usages_view(out@)) == run_lines(session_id@, t0, lv.take(i as int)),
            decreases lines.len() - i,
        {
            assert(lv.take(i + 1).drop_last() =~= lv.take(i as int));
            assert(lv.take(i + 1).last() == lines@[i as int]@);
            let ghost before = usages_view(out@);
            match parse_line(&mut slot.state, session_id, &lines[i]) {
                Some(u) => {
                    out.push(u);
                    assert(usages_view(out@) =~= before.push(u@));
                },
                None => {},
            }
            i = i + 1;
        }
        assert(lv.take(lines.len() as int) =~= lv);
        self.put_slot(slot);
        out
    }

    /// Takes in a raw output chunk of a session: escape sequences are
    /// removed, the bytes decoded, and the text taken in as `ingest_text`
    /// does. Returns the records completed by this chunk.
    pub fn ingest(&mut self, session_id: &str, data: &[u8]) -> (r: Vec<UsageCapture>)
        requires
            old(self).wf(),
        ensures
            final(self).wf(),
            ({
                let text = utf8_lossy(ansi_stripped(data@));
                let (lines, pending) = feed(Seq::empty(), old(self).entry(session_id@).0, text);
                let (t, rs) = run_lines(session_id@, old(self).entry(session_id@).1, lines);
                &&& final(self).entry(session_id@) == (pending, t)
                &&& usages_view(r@) == rs
            }),
            forall|x: Seq<char>|
                x != session_id@ ==> #[trigger] final(self).entry(x) == old(self).entry(x),
    {
        let stripped = strip_escapes(data);
        let text = decode_lossy(stripped.as_slice());
        self.ingest_text(session_id, text.as_str())
    }

    /// Drops what is kept for a session, as when the session ends.
    pub fn forget(&mut self, session_id: &str)
        requires
            old(self).wf(),
        ensures
            final(self).wf(),
            final(self).entry(session_id@) == fresh_entry(),
            forall|x: Seq<char>|
                x != session_id@ ==> #[trigger] final(self).entry(x) == old(self).entry(x),
    {
        let _ = self.take_slot(session_id);
    }

    /// The text received for a session after its last newline.
    pub fn pending_text(&self, session_id: &str) -> (r: String)
        requires
            self.wf(),
        ensures
            r@ == self.entry(session_id@).0,
    {
        match self.find(session_id) {
            Some(i) => {
                proof {
                    let c = choose|k: int|
                        0 <= k < self.slots.len() && #[trigger] self.slots@[k].session_id@
                            == session_id@;
                    assert(c == i);
                }
                string_of(&self.slots[i].pending)
            },
            None => {
                let empty: Vec<char> = Vec::new();
                string_of(&empty)
            },
        }
    }
}

/// After a record completes, the tally is empty again: nothing of the
/// completed record carries over into the next one.
pub proof fn lemma_completion_resets(session: Seq<char>, t: Tally, line: Seq<char>, m: Matches)
    ensures
        step_with(session, t, line, m).1 is Some ==> step_with(session, t, line, m).0
            == empty_tally(),
{
}

/// The matched lines a tally keeps never hold a newline: lines come from
/// the splitter, which cuts at every newline.
pub proof fn lemma_raw_lines_newline_free(session: Seq<char>, t: Tally, lines: Seq<Seq<char>>)
    requires
        forall|i: int| 0 <= i < t.raw.len() ==> no_newline(#[trigger] t.raw[i]),
        forall|i: int| 0 <= i < lines.len() ==> no_newline(#[trigger] lines[i]),
    ensures
        forall|i: int|
            0 <= i < run_lines(session, t, lines).0.raw.len() ==> no_newline(
                #[trigger] run_lines(session, t, lines).0.raw[i],
            ),
    decreases lines.len(),
{
    if lines.len() > 0 {
        let init = lines.drop_last();
        assert forall|i: int| 0 <= i < init.len() implies no_newline(#[trigger] init[i]) by {
            assert(init[i] == lines[i]);
        }
        lemma_raw_lines_newline_free(session, t, init);
        let t0 = run_lines(session, t, init).0;
        let l = lines.last();
        assert(no_newline(l));
        let a = absorb(t0, l, matches_of(l));
        assert forall|i: int| 0 <= i < a.raw.len() implies no_newline(#[trigger] a.raw[i]) by {
            if is_summary_line(l) && i == t0.raw.len() {
                assert(a.raw[i] == l);
            } else {
                assert(a.raw[i] == t0.raw[i]);
            }
        }
    }
}

/// Taking in lines `l1` and then `l2` is taking in `l1 + l2`.
pub proof fn lemma_run_lines_append(session: Seq<char>, t: Tally, l1: Seq<Seq<char>>, l2: Seq<
    Seq<char>,
>)
    ensures
        ({
            let (t1, r1) = run_lines(session, t, l1);
            let (t2, r2) = run_lines(session, t1, l2);
            run_lines(session, t, l1 + l2) == (t2, r1 + r2)
        }),
    decreases l2.len(),
{
    let (t1, r1) = run_lines(session, t, l1);
    if l2.len() == 0 {
        assert(l1 + l2 =~= l1);
        assert(r1 + Seq::<Usage>::empty() =~= r1);
    } else {
        lemma_run_lines_append(session, t, l1, l2.drop_last());
        assert((l1 + l2).drop_last() =~= l1 + l2.drop_last());
        assert((l1 + l2).last() == l2.last());
        let (tm, rm) = run_lines(session, t1, l2.drop_last());
        let (tn, r) = step_with(session, tm, l2.last(), matches_of(l2.last()));
        match r {
            Some(u) => {
                assert((r1 + rm).push(u) =~= r1 + rm.push(u));
            },
            None => {},
        }
    }
}

/// Chunking invariance of scraping: text taken in as two chunks leaves the
/// same pending text and tally, and yields the same records in the same
/// order, as the two chunks taken in at once.
pub proof fn lemma_scrape_chunking(
    session: Seq<char>,
    pending: Seq<char>,
    t: Tally,
    a: Seq<char>,
    b: Seq<char>,
)
    ensures
        ({
            let (la, pa) = feed(Seq::empty(), pending, a);
            let (ta, ra) = run_lines(session, t, la);
            let (lb, pb) = feed(Seq::empty(), pa, b);
            let (tb, rb) = run_lines(session, ta, lb);
            let (lw, pw) = feed(Seq::empty(), pending, a + b);
            let (tw, rw) = run_lines(session, t, lw);
            &&& pb == pw
            &&& tb == tw
            &&& ra + rb == rw
        }),
{
    crate::lines::lemma_split_two_calls(pending, a, b);
    let (la, pa) = feed(Seq::empty(), pending, a);
    let (lb, pb) = feed(Seq::empty(), pa, b);
    lemma_run_lines_append(session, t, la, lb);
}

} // verus!
