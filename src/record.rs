//! Log records and the parser for the bracketed wire format
//! `[timestamp][level][task][tag] message`.

use vstd::prelude::*;
use crate::text::{
    chars_of, parse_u64_or_zero, skip_spaces, substring, trim_start_spec, u64_or_zero,
};

verus! {

/// The level given to a record whose level field is missing or empty.
pub const UNKNOWN_LEVEL: char = '?';

/// One received log line, with the fields that could be read from it.
pub struct LogLine {
    /// The text as received, without its line ending.
    pub raw: String,
    /// Severity letter: `E`, `W`, `I`, `D`, `V`, or anything else for unknown.
    pub level: char,
    /// Producer-supplied timestamp in milliseconds.
    pub ts_ms: u64,
    pub task: String,
    pub tag: String,
    /// What follows the last bracketed field, without leading whitespace.
    pub msg: String,
    /// Whether all four bracketed fields were found in place.
    pub complete: bool,
}

/// First position at or after `i` that holds `]`.
pub open spec fn find_close(s: Seq<char>, i: int) -> Option<int>
    decreases s.len() - i,
{
    if i < 0 || i >= s.len() {
        None
    } else if s[i] == ']' {
        Some(i)
    } else {
        find_close(s, i + 1)
    }
}

/// One field step from position `p`: where the next `]` is, the text between a
/// leading `[` at `p` and that `]` is the field; the scan goes on after the `]`
/// whether or not the `[` was there.
pub open spec fn field_step(s: Seq<char>, p: int) -> (Option<Seq<char>>, int) {
    match find_close(s, p) {
        None => (None, p),
        Some(e) => (if s[p] == '[' { Some(s.subrange(p + 1, e)) } else { None }, e + 1),
    }
}

/// Position of the scan after `k` field steps.
pub open spec fn pos_after(s: Seq<char>, k: nat) -> int
    decreases k,
{
    if k == 0 {
        0
    } else {
        field_step(s, pos_after(s, (k - 1) as nat)).1
    }
}

/// Content of field number `k` (0: timestamp, 1: level, 2: task, 3: tag), if it was found.
pub open spec fn field(s: Seq<char>, k: nat) -> Option<Seq<char>> {
    field_step(s, pos_after(s, k)).0
}

pub open spec fn ts_of(s: Seq<char>) -> u64 {
    match field(s, 0) {
        Some(c) => u64_or_zero(c),
        None => 0,
    }
}

pub open spec fn level_of(s: Seq<char>) -> char {
    match field(s, 1) {
        Some(c) => if c.len() > 0 { c[0] } else { UNKNOWN_LEVEL },
        None => UNKNOWN_LEVEL,
    }
}

pub open spec fn text_field(s: Seq<char>, k: nat) -> Seq<char> {
    match field(s, k) {
        Some(c) => c,
        None => Seq::empty(),
    }
}

pub open spec fn msg_of(s: Seq<char>) -> Seq<char> {
    trim_start_spec(s.subrange(pos_after(s, 4), s.len() as int))
}

pub open spec fn complete_of(s: Seq<char>) -> bool {
    field(s, 0) is Some && field(s, 1) is Some && field(s, 2) is Some && field(s, 3) is Some
}

/// `l` is what parsing the text `s` gives.
pub open spec fn parsed_from(l: LogLine, s: Seq<char>) -> bool {
    &&& l.raw@ == s
    &&& l.ts_ms == ts_of(s)
    &&& l.level == level_of(s)
    &&& l.task@ == text_field(s, 2)
    &&& l.tag@ == text_field(s, 3)
    &&& l.msg@ == msg_of(s)
    &&& l.complete == complete_of(s)
}

/// What `String::from_utf8_lossy` makes of `bytes`.
pub uninterp spec fn utf8_lossy(bytes: Seq<u8>) -> Seq<char>;

/// Relies on `String::from_utf8_lossy`: the text that the bytes encode, with
/// invalid sequences replaced; the result depends on the bytes alone.
#[verifier::external_body]
fn decode_lossy(bytes: &[u8]) -> (r: String)
    ensures
        r@ == utf8_lossy(bytes@),
{
    String::from_utf8_lossy(bytes).into_owned()
}

/// Length of `s[..k]` once the `\n` and `\r` characters that end it are dropped.
pub open spec fn line_end(s: Seq<char>, k: int) -> int
    decreases k,
{
    if 0 < k <= s.len() && (s[k - 1] == '\n' || s[k - 1] == '\r') {
        line_end(s, k - 1)
    } else {
        k
    }
}

/// `s` without the line-ending characters at its end.
pub open spec fn strip_line_end(s: Seq<char>) -> Seq<char> {
    s.subrange(0, line_end(s, s.len() as int))
}

/// Turns one received datagram into a record: the payload is decoded as UTF-8
/// with invalid sequences replaced, then read as `line_from_text` does.
pub fn line_from_datagram(payload: &[u8]) -> (r: Option<LogLine>)
    ensures
        ({
            let text = strip_line_end(utf8_lossy(payload@));
            &&& r is None <==> text.len() == 0
            &&& r matches Some(l) ==> parsed_from(l, text)
        }),
{
    let decoded = decode_lossy(payload);
    line_from_text(decoded.as_str())
}

/// Turns one received text into a record: the line ending is dropped, and a
/// line left empty gives no record.
pub fn line_from_text(text: &str) -> (r: Option<LogLine>)
    ensures
        r is None <==> strip_line_end(text@).len() == 0,
        r matches Some(l) ==> parsed_from(l, strip_line_end(text@)),
{
    let cs = chars_of(text);
    let mut k: usize = cs.len();
    while k > 0 && (cs[k - 1] == '\n' || cs[k - 1] == '\r')
        invariant
            k <= cs@.len(),
            line_end(cs@, cs@.len() as int) == line_end(cs@, k as int),
        decreases k,
    {
        k = k - 1;
    }
    if k == 0 {
        return None;
    }
    let line = substring(&cs, 0, k);
    Some(parse_line(line.as_str()))
}

/// The next `]` at or after `p`.
fn find_close_exec(cs: &Vec<char>, p: usize) -> (r: Option<usize>)
    requires
        p <= cs@.len(),
    ensures
        r matches Some(e) ==> find_close(cs@, p as int) == Some(e as int) && p <= e < cs@.len()
            && cs@[e as int] == ']',
        r is None ==> find_close(cs@, p as int) is None,
{
    let mut i: usize = p;
    while i < cs.len()
        invariant
            p <= i <= cs@.len(),
            find_close(cs@, p as int) == find_close(cs@, i as int),
        decreases cs@.len() - i,
    {
        if cs[i] == ']' {
            return Some(i);
        }
        i = i + 1;
    }
    None
}

/// One field step from `p`: the bounds of the field's content, if found, and
/// where the scan goes on.
fn step(cs: &Vec<char>, p: usize) -> (r: (Option<(usize, usize)>, usize))
    requires
        p <= cs@.len(),
    ensures
        r.1 <= cs@.len(),
        r.1 as int == field_step(cs@, p as int).1,
        match r.0 {
            Some((a, b)) => a <= b <= cs@.len() && field_step(cs@, p as int).0 == Some(
                cs@.subrange(a as int, b as int),
            ),
            None => field_step(cs@, p as int).0 is None,
        },
{
    let n = cs.len();
    match find_close_exec(cs, p) {
        None => (None, p),
        Some(e) => {
            assert(e < n);
            if cs[p] == '[' {
                (Some((p + 1, e)), e + 1)
            } else {
                (None, e + 1)
            }
        },
    }
}

/// Parses one log line. Never fails: a field that is not in place keeps its
/// default (timestamp 0, level `?`, empty task and tag), and `raw` always holds
/// the input unchanged.
pub fn parse_line(raw: &str) -> (r: LogLine)
    ensures
        parsed_from(r, raw@),
{
    let cs = chars_of(raw);
    let (f0, at1) = step(&cs, 0);
    let (f1, at2) = step(&cs, at1);
    let (f2, at3) = step(&cs, at2);
    let (f3, at4) = step(&cs, at3);
    assert(pos_after(cs@, 0) == 0);
    assert(pos_after(cs@, 1) == at1 as int);
    assert(pos_after(cs@, 2) == at2 as int);
    assert(pos_after(cs@, 3) == at3 as int);
    assert(pos_after(cs@, 4) == at4 as int);
    let ts_ms = match f0 {
        Some((a, b)) => parse_u64_or_zero(&cs, a, b),
        None => 0,
    };
    let level = match f1 {
        Some((a, b)) => if a < b { cs[a] } else { UNKNOWN_LEVEL },
        None => UNKNOWN_LEVEL,
    };
    let task = match f2 {
        Some((a, b)) => substring(&cs, a, b),
        None => String::new(),
    };
    let tag = match f3 {
        Some((a, b)) => substring(&cs, a, b),
        None => String::new(),
    };
    let m = skip_spaces(&cs, at4);
    let msg = substring(&cs, m, cs.len());
    proof {
        let rest = cs@.subrange(at4 as int, cs@.len() as int);
        lemma_skip_shift(cs@, at4 as int, 0);
        let k = crate::text::skip_white_space(rest, 0);
        assert(k + at4 == m);
        assert(0 <= k <= rest.len()) by {
            crate::text::lemma_skip_bounds(rest, 0);
        }
        assert(msg@ =~= trim_start_spec(rest));
    }
    let complete = f0.is_some() && f1.is_some() && f2.is_some() && f3.is_some();
    LogLine { raw: raw.to_owned(), level, ts_ms, task, tag, msg, complete }
}

/// The first `]` from `i` is at `e` when none stands before it.
proof fn lemma_find_close_at(s: Seq<char>, i: int, e: int)
    requires
        0 <= i <= e < s.len(),
        s[e] == ']',
        forall|j: int| i <= j < e ==> s[j] != ']',
    ensures
        find_close(s, i) == Some(e),
    decreases e - i,
{
    if i < e {
        lemma_find_close_at(s, i + 1, e);
    }
}

/// A field `[x]` at `p`, with no `]` inside, is read whole.
proof fn lemma_bracket_at(s: Seq<char>, p: int, x: Seq<char>)
    requires
        0 <= p,
        p + x.len() + 2 <= s.len(),
        s[p] == '[',
        s.subrange(p + 1, p + 1 + x.len()) == x,
        s[p + 1 + x.len()] == ']',
        forall|j: int| 0 <= j < x.len() ==> x[j] != ']',
    ensures
        field_step(s, p) == (Some(x), p + x.len() + 2),
{
    assert forall|j: int| p <= j < p + 1 + x.len() implies s[j] != ']' by {
        if j > p {
            assert(s[j] == s.subrange(p + 1, p + 1 + x.len())[j - p - 1]);
        }
    }
    lemma_find_close_at(s, p, p + 1 + x.len());
}

/// Whether `x` holds no `]`, so that it can stand inside a bracketed field.
pub open spec fn bracket_free(x: Seq<char>) -> bool {
    forall|j: int| 0 <= j < x.len() ==> x[j] != ']'
}

/// The text `[ts][level][task][tag]msg` laid out from its parts.
pub open spec fn wire_text(
    ts: Seq<char>,
    level: Seq<char>,
    task: Seq<char>,
    tag: Seq<char>,
    msg: Seq<char>,
) -> Seq<char> {
    seq!['['] + ts + seq![']', '['] + level + seq![']', '['] + task + seq![']', '['] + tag + seq![
        ']',
    ] + msg
}

/// A line with all four bracketed fields in place parses into exactly those
/// fields, and what follows them, less its leading whitespace, is the message.
pub proof fn lemma_parse_wire_text(
    ts: Seq<char>,
    level: Seq<char>,
    task: Seq<char>,
    tag: Seq<char>,
    msg: Seq<char>,
)
    requires
        bracket_free(ts),
        bracket_free(level),
        bracket_free(task),
        bracket_free(tag),
    ensures
        ({
            let s = wire_text(ts, level, task, tag, msg);
            &&& ts_of(s) == u64_or_zero(ts)
            &&& level_of(s) == (if level.len() > 0 { level[0] } else { UNKNOWN_LEVEL })
            &&& text_field(s, 2) == task
            &&& text_field(s, 3) == tag
            &&& msg_of(s) == trim_start_spec(msg)
            &&& complete_of(s)
        }),
{
    let s = wire_text(ts, level, task, tag, msg);
    let t: int = ts.len() as int;
    let at1: int = t + 2;
    let at2: int = at1 + level.len() + 2;
    let at3: int = at2 + task.len() + 2;
    let at4: int = at3 + tag.len() + 2;
    assert(s.len() == at4 + msg.len());
    assert(s.subrange(1, t + 1) =~= ts);
    assert(s.subrange(at1 + 1, at1 + 1 + level.len()) =~= level);
    assert(s.subrange(at2 + 1, at2 + 1 + task.len()) =~= task);
    assert(s.subrange(at3 + 1, at3 + 1 + tag.len()) =~= tag);
    assert(s[0] == '[' && s[t + 1] == ']');
    assert(s[at1] == '[' && s[at1 + 1 + level.len()] == ']');
    assert(s[at2] == '[' && s[at2 + 1 + task.len()] == ']');
    assert(s[at3] == '[' && s[at3 + 1 + tag.len()] == ']');
    lemma_bracket_at(s, 0, ts);
    lemma_bracket_at(s, at1, level);
    lemma_bracket_at(s, at2, task);
    lemma_bracket_at(s, at3, tag);
    assert(pos_after(s, 0) == 0);
    assert(pos_after(s, 1) == at1);
    assert(pos_after(s, 2) == at2);
    assert(pos_after(s, 3) == at3);
    assert(pos_after(s, 4) == at4);
    assert(s.subrange(at4, s.len() as int) =~= msg);
}

/// Skipping whitespace in a suffix is skipping it in the whole, shifted.
proof fn lemma_skip_shift(s: Seq<char>, p: int, i: int)
    requires
        0 <= p <= s.len(),
        0 <= i <= s.len() - p,
    ensures
        crate::text::skip_white_space(s.subrange(p, s.len() as int), i) + p
            == crate::text::skip_white_space(s, p + i),
    decreases s.len() - p - i,
{
    if i < s.len() - p {
        lemma_skip_shift(s, p, i + 1);
    }
}

} // verus!
