//! Which records are visible: a severity threshold, an optional regular
//! expression on tag or task, and an optional case-insensitive search in the
//! raw text, all three required at once.

use vstd::prelude::*;
use crate::level::{level_order, level_rank};
use crate::record::LogLine;

verus! {

#[verifier::external_type_specification]
#[verifier::external_body]
pub struct ExRegex(regex::Regex);

/// Whether `regex::Regex::new` accepts the pattern.
pub uninterp spec fn regex_compiles(pattern: Seq<char>) -> bool;

/// Whether the regular expression `pattern` matches somewhere in `hay`.
pub uninterp spec fn regex_finds(pattern: Seq<char>, hay: Seq<char>) -> bool;

/// What `str::to_lowercase` makes of `s`.
pub uninterp spec fn lower_of(s: Seq<char>) -> Seq<char>;

/// Whether `needle` occurs in `hay` as a run of consecutive characters.
pub open spec fn has_substring(hay: Seq<char>, needle: Seq<char>) -> bool {
    exists|i: int|
        0 <= i && i + needle.len() <= hay.len() && #[trigger] hay.subrange(i, i + needle.len())
            == needle
}

/// A compiled regular expression together with the text it was compiled from.
pub struct TagPattern {
    source: String,
    re: regex::Regex,
}

impl View for TagPattern {
    type V = Seq<char>;

    closed spec fn view(&self) -> Seq<char> {
        self.source@
    }
}

/// Relies on `regex::Regex::new`: it returns `Ok` exactly for the patterns it
/// accepts, which depends on the pattern alone.
#[verifier::external_body]
fn compile_regex(pattern: &str) -> (r: Option<TagPattern>)
    ensures
        r is Some == regex_compiles(pattern@),
        r matches Some(t) ==> t@ == pattern@,
{
    match regex::Regex::new(pattern) {
        Ok(re) => Some(TagPattern { source: pattern.to_string(), re }),
        Err(_) => None,
    }
}

/// Relies on `regex::Regex::is_match`: whether the pattern the regex was
/// compiled from matches anywhere in `hay`.
#[verifier::external_body]
fn regex_is_match(p: &TagPattern, hay: &str) -> (r: bool)
    ensures
        r == regex_finds(p@, hay@),
{
    p.re.is_match(hay)
}

/// Relies on `str::to_lowercase`: the result depends on the characters alone,
/// and the empty string stays empty.
#[verifier::external_body]
fn to_lower(s: &str) -> (r: String)
    ensures
        r@ == lower_of(s@),
        s@.len() == 0 ==> r@.len() == 0,
{
    s.to_lowercase()
}

/// Relies on `str::contains` with a `&str` pattern: whether `needle` occurs in `hay`.
#[verifier::external_body]
fn str_contains(hay: &str, needle: &str) -> (r: bool)
    ensures
        r == has_substring(hay@, needle@),
{
    hay.contains(needle)
}

/// Whether a record of severity `level` passes the threshold `min_level`.
pub fn level_passes(level: char, min_level: char) -> (r: bool)
    ensures
        r == (level_rank(level) <= level_rank(min_level)),
{
    level_order(level) <= level_order(min_level)
}

/// Compiles a tag/task pattern; `None` where the pattern is empty or invalid.
pub fn compile_pattern(text: &str) -> (r: Option<TagPattern>)
    ensures
        r is Some == (text@.len() > 0 && regex_compiles(text@)),
        r matches Some(t) ==> t@ == text@,
{
    if text.is_empty() {
        None
    } else {
        compile_regex(text)
    }
}

/// The pattern filter on a record's task and tag: true when no pattern is set,
/// otherwise whether the pattern matches the tag or the task.
pub fn pattern_passes(pattern: &Option<TagPattern>, task: &str, tag: &str) -> (r: bool)
    ensures
        r == match pattern {
            None => true,
            Some(p) => regex_finds(p@, tag@) || regex_finds(p@, task@),
        },
{
    match pattern {
        None => true,
        Some(p) => regex_is_match(p, tag) || regex_is_match(p, task),
    }
}

/// The search test once both texts are lower-cased: passes when `search` is
/// empty or `search_lower` occurs in `raw_lower`.
pub fn search_passes_folded(raw_lower: &str, search: &str, search_lower: &str) -> (r: bool)
    ensures
        r == (search@.len() == 0 || has_substring(raw_lower@, search_lower@)),
{
    search.is_empty() || str_contains(raw_lower, search_lower)
}

/// Whether `raw` passes the case-insensitive search for `search`.
pub fn search_passes(raw: &str, search: &str) -> (r: bool)
    ensures
        r == search_ok(raw@, search@),
{
    if search.is_empty() {
        return true;
    }
    let raw_lower = to_lower(raw);
    let search_lower = to_lower(search);
    search_passes_folded(raw_lower.as_str(), search, search_lower.as_str())
}

/// The filter settings that the display and the export apply.
pub struct FilterConfig {
    min_level: char,
    pattern_text: String,
    pattern: Option<TagPattern>,
    search: String,
}

impl View for FilterConfig {
    type V = FilterView;

    closed spec fn view(&self) -> FilterView {
        FilterView {
            min_level: self.min_level,
            pattern: match self.pattern {
                Some(p) => Some(p@),
                None => None,
            },
            search: self.search@,
        }
    }
}

impl FilterConfig {
    /// The source text last given for the pattern, valid or not.
    pub closed spec fn pattern_source(&self) -> Seq<char> {
        self.pattern_text@
    }

    /// Threshold `I`, no pattern, no search.
    pub fn new() -> (r: FilterConfig)
        ensures
            r@ == (FilterView { min_level: 'I', pattern: None, search: Seq::empty() }),
            r.pattern_source() == Seq::<char>::empty(),
    {
        FilterConfig {
            min_level: 'I',
            pattern_text: String::new(),
            pattern: None,
            search: String::new(),
        }
    }

    pub fn min_level(&self) -> (r: char)
        ensures
            r == self@.min_level,
    {
        self.min_level
    }

    pub fn set_min_level(&mut self, level: char)
        ensures
            final(self)@ == (FilterView { min_level: level, ..old(self)@ }),
            final(self).pattern_source() == old(self).pattern_source(),
    {
        self.min_level = level;
    }

    pub fn search(&self) -> (r: &String)
        ensures
            r@ == self@.search,
    {
        &self.search
    }

    pub fn set_search(&mut self, text: &str)
        ensures
            final(self)@ == (FilterView { search: text@, ..old(self)@ }),
            final(self).pattern_source() == old(self).pattern_source(),
    {
        self.search = text.to_owned();
    }

    pub fn pattern_text(&self) -> (r: &String)
        ensures
            r@ == self.pattern_source(),
    {
        &self.pattern_text
    }

    /// Sets the tag/task pattern. An empty or invalid pattern is no error: it
    /// leaves the pattern filter inactive, so that every record passes it.
    pub fn set_pattern(&mut self, text: &str)
        ensures
            final(self).pattern_source() == text@,
            final(self)@.min_level == old(self)@.min_level,
            final(self)@.search == old(self)@.search,
            final(self)@.pattern == if text@.len() > 0 && regex_compiles(text@) {
                Some(text@)
            } else {
                None
            },
            !regex_compiles(text@) ==> forall|l: LogLine| #[trigger]
                visible(l, final(self)@) == (level_ok(l, final(self)@.min_level) && search_ok(
                    l.raw@,
                    final(self)@.search,
                )),
    {
        self.pattern_text = text.to_owned();
        self.pattern = compile_pattern(text);
    }

    /// Whether `line` is visible under these settings.
    pub fn is_visible(&self, line: &LogLine) -> (r: bool)
        ensures
            r == visible(*line, self@),
    {
        level_passes(line.level, self.min_level) && pattern_passes(
            &self.pattern,
            line.task.as_str(),
            line.tag.as_str(),
        ) && search_passes(line.raw.as_str(), self.search.as_str())
    }

    /// Positions in `lines` of the visible records, in increasing order.
    pub fn visible_indices(&self, lines: &Vec<LogLine>) -> (r: Vec<usize>)
        ensures
            forall|k: int| 0 <= k < r@.len() ==> #[trigger] r@[k] < lines@.len(),
            forall|j: int, k: int| 0 <= j < k < r@.len() ==> r@[j] < r@[k],
            r@.map_values(|i: usize| lines@[i as int]) == select(lines@, self@),
    {
        let mut out: Vec<usize> = Vec::new();
        let mut i: usize = 0;
        while i < lines.len()
            invariant
                i <= lines@.len(),
                forall|k: int| 0 <= k < out@.len() ==> #[trigger] out@[k] < i,
                forall|j: int, k: int| 0 <= j < k < out@.len() ==> out@[j] < out@[k],
                out@.map_values(|x: usize| lines@[x as int]) == select(
                    lines@.subrange(0, i as int),
                    self@,
                ),
            decreases lines@.len() - i,
        {
            let ghost before = out@;
            assert(lines@.subrange(0, i + 1).drop_last() =~= lines@.subrange(0, i as int));
            if self.is_visible(&lines[i]) {
                out.push(i);
                assert(out@.map_values(|x: usize| lines@[x as int]) =~= before.map_values(
                    |x: usize| lines@[x as int],
                ).push(lines@[i as int]));
            }
            i = i + 1;
        }
        assert(lines@.subrange(0, lines@.len() as int) =~= lines@);
        out
    }

    /// The raw text of each visible record, in order: what an export writes,
    /// one line each.
    pub fn export_lines(&self, lines: &Vec<LogLine>) -> (r: Vec<String>)
        ensures
            r@ == select(lines@, self@).map_values(|l: LogLine| l.raw),
    {
        let mut out: Vec<String> = Vec::new();
        let mut i: usize = 0;
        while i < lines.len()
            invariant
                i <= lines@.len(),
                out@ == select(lines@.subrange(0, i as int), self@).map_values(
                    |l: LogLine| l.raw,
                ),
            decreases lines@.len() - i,
        {
            let ghost before = out@;
            assert(lines@.subrange(0, i + 1).drop_last() =~= lines@.subrange(0, i as int));
            if self.is_visible(&lines[i]) {
                out.push(lines[i].raw.clone());
                assert(out@ =~= select(lines@.subrange(0, i + 1), self@).map_values(
                    |l: LogLine| l.raw,
                ));
            } else {
                assert(out@ =~= select(lines@.subrange(0, i + 1), self@).map_values(
                    |l: LogLine| l.raw,
                ));
            }
            i = i + 1;
        }
        assert(lines@.subrange(0, lines@.len() as int) =~= lines@);
        out
    }
}

/// The filter settings as values: the severity threshold, the source of the
/// active tag/task pattern if any, and the search text (empty for none).
pub struct FilterView {
    pub min_level: char,
    pub pattern: Option<Seq<char>>,
    pub search: Seq<char>,
}

pub open spec fn level_ok(l: LogLine, min_level: char) -> bool {
    level_rank(l.level) <= level_rank(min_level)
}

pub open spec fn pattern_ok(l: LogLine, pattern: Option<Seq<char>>) -> bool {
    match pattern {
        None => true,
        Some(p) => regex_finds(p, l.tag@) || regex_finds(p, l.task@),
    }
}

pub open spec fn search_ok(raw: Seq<char>, search: Seq<char>) -> bool {
    search.len() == 0 || has_substring(lower_of(raw), lower_of(search))
}

/// A record is visible when it passes all three filters.
pub open spec fn visible(l: LogLine, f: FilterView) -> bool {
    level_ok(l, f.min_level) && pattern_ok(l, f.pattern) && search_ok(l.raw@, f.search)
}

/// The records of `s` that satisfy `p`, in their order.
pub open spec fn keep(s: Seq<LogLine>, p: spec_fn(LogLine) -> bool) -> Seq<LogLine>
    decreases s.len(),
{
    if s.len() == 0 {
        s
    } else if p(s.last()) {
        keep(s.drop_last(), p).push(s.last())
    } else {
        keep(s.drop_last(), p)
    }
}

/// The visible records of `s`, in their order.
pub open spec fn select(s: Seq<LogLine>, f: FilterView) -> Seq<LogLine> {
    keep(s, |l: LogLine| visible(l, f))
}

/// Filtering by `p` and then by `q` is filtering by both at once.
pub proof fn lemma_keep_keep(
    s: Seq<LogLine>,
    p: spec_fn(LogLine) -> bool,
    q: spec_fn(LogLine) -> bool,
)
    ensures
        keep(keep(s, p), q) == keep(s, |l: LogLine| p(l) && q(l)),
    decreases s.len(),
{
    if s.len() > 0 {
        lemma_keep_keep(s.drop_last(), p, q);
        let kp = keep(s.drop_last(), p);
        if p(s.last()) {
            assert(kp.push(s.last()).drop_last() =~= kp);
        }
    }
}

/// Filters that agree on every record select the same records.
pub proof fn lemma_keep_ext(s: Seq<LogLine>, p: spec_fn(LogLine) -> bool, q: spec_fn(LogLine) -> bool)
    requires
        forall|l: LogLine| #[trigger] p(l) == q(l),
    ensures
        keep(s, p) == keep(s, q),
    decreases s.len(),
{
    if s.len() > 0 {
        lemma_keep_ext(s.drop_last(), p, q);
    }
}

/// The three filters can be applied one after another in any order: each
/// order selects exactly the visible records.
pub proof fn lemma_filter_order_free(s: Seq<LogLine>, f: FilterView)
    ensures
        ({
            let a = |l: LogLine| level_ok(l, f.min_level);
            let b = |l: LogLine| pattern_ok(l, f.pattern);
            let c = |l: LogLine| search_ok(l.raw@, f.search);
            &&& keep(keep(keep(s, a), b), c) == select(s, f)
            &&& keep(keep(keep(s, a), c), b) == select(s, f)
            &&& keep(keep(keep(s, b), a), c) == select(s, f)
            &&& keep(keep(keep(s, b), c), a) == select(s, f)
            &&& keep(keep(keep(s, c), a), b) == select(s, f)
            &&& keep(keep(keep(s, c), b), a) == select(s, f)
        }),
{
    let a = |l: LogLine| level_ok(l, f.min_level);
    let b = |l: LogLine| pattern_ok(l, f.pattern);
    let c = |l: LogLine| search_ok(l.raw@, f.search);
    let v = |l: LogLine| visible(l, f);
    let fs: Seq<spec_fn(LogLine) -> bool> = seq![a, b, c];
    assert forall|i: int, j: int, k: int|
        0 <= i < 3 && 0 <= j < 3 && 0 <= k < 3 && i != j && j != k && i != k implies keep(
        keep(keep(s, #[trigger] fs[i]), #[trigger] fs[j]), #[trigger] fs[k]) == select(s, f) by {
        let p = fs[i];
        let q = fs[j];
        let r = fs[k];
        lemma_keep_keep(s, p, q);
        let pq = |l: LogLine| p(l) && q(l);
        lemma_keep_keep(s, pq, r);
        lemma_keep_ext(s, |l: LogLine| pq(l) && r(l), v);
    }
    assert(fs[0] == a && fs[1] == b && fs[2] == c);
}

} // verus!
