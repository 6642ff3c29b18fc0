//! The operations a display calls: drain newly received records into the
//! history, pause and resume, clear, change the filters, and read what is visible.

use vstd::prelude::*;
use crossbeam_channel::Receiver;
use crate::filter::{FilterConfig, FilterView, select};
use crate::history::{History, append_all};
use crate::record::LogLine;

verus! {

#[verifier::external_type_specification]
#[verifier::external_body]
#[verifier::reject_recursive_types(T)]
pub struct ExReceiver<T>(crossbeam_channel::Receiver<T>);

/// Most records taken from the channel in one tick.
pub const DRAIN_BATCH: usize = 500;

/// Relies on `crossbeam_channel::Receiver::try_recv`: takes a waiting record
/// without blocking, if there is one. What it returns depends on the sender,
/// so nothing is stated of it.
#[verifier::external_body]
fn try_take(rx: &Receiver<LogLine>) -> (r: Option<LogLine>) {
    rx.try_recv().ok()
}

/// Owner of the history: takes records off the channel, keeps them bounded,
/// and answers filtered views of them.
pub struct Viewer {
    rx: Receiver<LogLine>,
    history: History,
    paused: bool,
    filter: FilterConfig,
}

impl Viewer {
    /// The records held, oldest first.
    pub closed spec fn lines(&self) -> Seq<LogLine> {
        self.history@
    }

    pub closed spec fn max(&self) -> nat {
        self.history.max()
    }

    pub closed spec fn batch(&self) -> nat {
        self.history.batch()
    }

    pub closed spec fn is_paused_spec(&self) -> bool {
        self.paused
    }

    pub closed spec fn filter_view(&self) -> FilterView {
        self.filter@
    }

    pub closed spec fn wf(&self) -> bool {
        self.history.wf()
    }

    /// A viewer reading from `rx`, with an empty history capped at `max_lines`
    /// that evicts `prune_batch` records at a time, running, with the default filters.
    pub fn new(rx: Receiver<LogLine>, max_lines: usize, prune_batch: usize) -> (r: Viewer)
        requires
            1 <= prune_batch <= max_lines,
        ensures
            r.wf(),
            r.lines() == Seq::<LogLine>::empty(),
            r.max() == max_lines,
            r.batch() == prune_batch,
            !r.is_paused_spec(),
            r.filter_view() == (FilterView { min_level: 'I', pattern: None, search: Seq::empty() }),
    {
        Viewer { rx, history: History::new(max_lines, prune_batch), paused: false, filter: FilterConfig::new() }
    }

    /// One refresh step: unless paused, moves up to `DRAIN_BATCH` waiting records
    /// into the history, in the order they arrived, enforcing the cap after each.
    pub fn tick(&mut self)
        requires
            old(self).wf(),
        ensures
            final(self).wf(),
            final(self).max() == old(self).max(),
            final(self).batch() == old(self).batch(),
            final(self).is_paused_spec() == old(self).is_paused_spec(),
            final(self).filter_view() == old(self).filter_view(),
            old(self).is_paused_spec() ==> final(self).lines() == old(self).lines(),
            exists|got: Seq<LogLine>|
                got.len() <= DRAIN_BATCH && #[trigger] append_all(old(self).lines(), got, old(self).max(), old(self).batch())
                    == final(self).lines(),
    {
        let ghost start = self.history@;
        let ghost mut got: Seq<LogLine> = Seq::empty();
        assert(append_all(start, got, self.history.max(), self.history.batch()) == start);
        if self.paused {
            assert(append_all(old(self).lines(), got, old(self).max(), old(self).batch()) == self.lines());
            return;
        }
        let mut n: usize = 0;
        while n < DRAIN_BATCH
            invariant
                self.wf(),
                n <= DRAIN_BATCH,
                got.len() == n,
                self.max() == old(self).max(),
                self.batch() == old(self).batch(),
                self.paused == old(self).paused,
                self.filter@ == old(self).filter@,
                start == old(self).history@,
                self.history@ == append_all(start, got, self.history.max(), self.history.batch()),
            decreases DRAIN_BATCH - n,
        {
            match try_take(&self.rx) {
                Some(line) => {
                    proof {
                        let next = got.push(line);
                        assert(next.drop_last() =~= got);
                        got = next;
                    }
                    self.history.push(line);
                },
                None => break,
            }
            n = n + 1;
        }
        assert(append_all(old(self).lines(), got, old(self).max(), old(self).batch()) == self.lines());
    }

    pub fn is_paused(&self) -> (r: bool)
        ensures
            r == self.is_paused_spec(),
    {
        self.paused
    }

    /// Stops moving records into the history; they wait in the channel.
    pub fn pause(&mut self)
        ensures
            final(self).is_paused_spec(),
            final(self).lines() == old(self).lines(),
            final(self).wf() == old(self).wf(),
            final(self).max() == old(self).max(),
            final(self).batch() == old(self).batch(),
            final(self).filter_view() == old(self).filter_view(),
    {
        self.paused = true;
    }

    /// Moves records into the history again from the next tick.
    pub fn resume(&mut self)
        ensures
            !final(self).is_paused_spec(),
            final(self).lines() == old(self).lines(),
            final(self).wf() == old(self).wf(),
            final(self).max() == old(self).max(),
            final(self).batch() == old(self).batch(),
            final(self).filter_view() == old(self).filter_view(),
    {
        self.paused = false;
    }

    /// Empties the history.
    pub fn clear_history(&mut self)
        requires
            old(self).wf(),
        ensures
            final(self).wf(),
            final(self).lines() == Seq::<LogLine>::empty(),
            final(self).max() == old(self).max(),
            final(self).batch() == old(self).batch(),
            final(self).is_paused_spec() == old(self).is_paused_spec(),
            final(self).filter_view() == old(self).filter_view(),
    {
        self.history.clear();
    }

    /// Number of records held.
    pub fn total(&self) -> (r: usize)
        ensures
            r == self.lines().len(),
    {
        self.history.len()
    }

    /// The records held, oldest first.
    pub fn history_lines(&self) -> (r: &Vec<LogLine>)
        ensures
            r@ == self.lines(),
    {
        self.history.lines()
    }

    /// The filter settings.
    pub fn filter(&self) -> (r: &FilterConfig)
        ensures
            r@ == self.filter_view(),
    {
        &self.filter
    }

    pub fn set_min_level(&mut self, level: char)
        ensures
            final(self).filter_view() == (FilterView { min_level: level, ..old(self).filter_view() }),
            final(self).lines() == old(self).lines(),
            final(self).wf() == old(self).wf(),
            final(self).max() == old(self).max(),
            final(self).batch() == old(self).batch(),
            final(self).is_paused_spec() == old(self).is_paused_spec(),
    {
        self.filter.set_min_level(level);
    }

    pub fn set_search(&mut self, text: &str)
        ensures
            final(self).filter_view() == (FilterView { search: text@, ..old(self).filter_view() }),
            final(self).lines() == old(self).lines(),
            final(self).wf() == old(self).wf(),
            final(self).max() == old(self).max(),
            final(self).batch() == old(self).batch(),
            final(self).is_paused_spec() == old(self).is_paused_spec(),
    {
        self.filter.set_search(text);
    }

    /// Sets the tag/task pattern; an empty or invalid one leaves the pattern
    /// filter inactive.
    pub fn set_pattern(&mut self, text: &str)
        ensures
            final(self).filter_view() == (FilterView {
                pattern: if text@.len() > 0 && crate::filter::regex_compiles(text@) {
                    Some(text@)
                } else {
                    None
                },
                ..old(self).filter_view()
            }),
            final(self).lines() == old(self).lines(),
            final(self).wf() == old(self).wf(),
            final(self).max() == old(self).max(),
            final(self).batch() == old(self).batch(),
            final(self).is_paused_spec() == old(self).is_paused_spec(),
    {
        self.filter.set_pattern(text);
    }

    /// Positions of the visible records in the history, in increasing order.
    pub fn visible_indices(&self) -> (r: Vec<usize>)
        ensures
            forall|k: int| 0 <= k < r@.len() ==> #[trigger] r@[k] < self.lines().len(),
            forall|j: int, k: int| 0 <= j < k < r@.len() ==> r@[j] < r@[k],
            r@.map_values(|i: usize| self.lines()[i as int]) == select(self.lines(), self.filter_view()),
    {
        self.filter.visible_indices(self.history.lines())
    }

    /// The raw text of each visible record, in order, as an export writes them.
    pub fn export_lines(&self) -> (r: Vec<String>)
        ensures
            r@ == select(self.lines(), self.filter_view()).map_values(|l: LogLine| l.raw),
    {
        self.filter.export_lines(self.history.lines())
    }
}

} // verus!
