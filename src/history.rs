//! The bounded history of received records, oldest first.

use vstd::prelude::*;
use crate::record::LogLine;

verus! {

/// What a history holding `s` keeps once the cap is enforced: above `max`
/// records, the oldest `batch` of them go at once.
pub open spec fn settle(s: Seq<LogLine>, max: nat, batch: nat) -> Seq<LogLine> {
    if s.len() > max {
        s.subrange(if batch < s.len() { batch as int } else { s.len() as int }, s.len() as int)
    } else {
        s
    }
}

/// The history `s` after `items` were appended one by one, each followed by
/// enforcing the cap.
pub open spec fn append_all(s: Seq<LogLine>, items: Seq<LogLine>, max: nat, batch: nat) -> Seq<
    LogLine,
>
    decreases items.len(),
{
    if items.len() == 0 {
        s
    } else {
        settle(append_all(s, items.drop_last(), max, batch).push(items.last()), max, batch)
    }
}

/// Appending `items` one by one to an empty history with `1 <= batch <= max`
/// keeps the newest of them, in order, and never more than `max`; once more
/// than `max` were appended, at least `max - batch + 1` are kept.
pub proof fn lemma_append_keeps_newest(items: Seq<LogLine>, max: nat, batch: nat)
    requires
        1 <= batch <= max,
    ensures
        ({
            let r = append_all(Seq::empty(), items, max, batch);
            &&& r.len() <= max
            &&& r == items.subrange(items.len() - r.len(), items.len() as int)
            &&& items.len() <= max ==> r.len() == items.len()
            &&& items.len() > max ==> max - batch + 1 <= r.len()
        }),
    decreases items.len(),
{
    let r = append_all(Seq::empty(), items, max, batch);
    if items.len() == 0 {
        assert(items.subrange(0, 0) =~= r);
    } else {
        let init = items.drop_last();
        lemma_append_keeps_newest(init, max, batch);
        let q = append_all(Seq::empty(), init, max, batch);
        let n = items.len() as int;
        let pushed = q.push(items.last());
        assert(pushed =~= items.subrange(n - pushed.len(), n));
        if pushed.len() > max {
            assert(r =~= pushed.subrange(batch as int, pushed.len() as int));
            assert(r =~= items.subrange(n - r.len(), n));
        }
    }
}

/// A bounded sequence of records in arrival order. Past `max_lines` records the
/// oldest `prune_batch` are dropped in one go.
pub struct History {
    lines: Vec<LogLine>,
    max_lines: usize,
    prune_batch: usize,
}

impl View for History {
    type V = Seq<LogLine>;

    closed spec fn view(&self) -> Seq<LogLine> {
        self.lines@
    }
}

impl History {
    /// The cap on the number of records.
    pub closed spec fn max(&self) -> nat {
        self.max_lines as nat
    }

    /// How many records one eviction removes.
    pub closed spec fn batch(&self) -> nat {
        self.prune_batch as nat
    }

    /// The eviction batch is between 1 and the cap, and the cap holds.
    pub closed spec fn wf(&self) -> bool {
        &&& 1 <= self.prune_batch <= self.max_lines
        &&& self.lines@.len() <= self.max_lines
    }

    /// An empty history that keeps at most `max_lines` records and evicts
    /// `prune_batch` at a time.
    pub fn new(max_lines: usize, prune_batch: usize) -> (r: History)
        requires
            1 <= prune_batch <= max_lines,
        ensures
            r.wf(),
            r@ == Seq::<LogLine>::empty(),
            r.max() == max_lines,
            r.batch() == prune_batch,
    {
        History { lines: Vec::new(), max_lines, prune_batch }
    }

    /// Appends `line`, then evicts the oldest batch if the cap is exceeded.
    pub fn push(&mut self, line: LogLine)
        requires
            old(self).wf(),
        ensures
            final(self).wf(),
            final(self)@ == settle(old(self)@.push(line), old(self).max(), old(self).batch()),
            final(self).max() == old(self).max(),
            final(self).batch() == old(self).batch(),
    {
        self.lines.push(line);
        if self.lines.len() > self.max_lines {
            let k = if self.prune_batch < self.lines.len() {
                self.prune_batch
            } else {
                self.lines.len()
            };
            let kept = self.lines.split_off(k);
            self.lines = kept;
        }
    }

    /// Removes every record.
    pub fn clear(&mut self)
        requires
            old(self).wf(),
        ensures
            final(self).wf(),
            final(self)@ == Seq::<LogLine>::empty(),
            final(self).max() == old(self).max(),
            final(self).batch() == old(self).batch(),
    {
        self.lines.clear();
    }

    /// Number of records held.
    pub fn len(&self) -> (r: usize)
        ensures
            r == self@.len(),
    {
        self.lines.len()
    }

    /// The records, oldest first.
    pub fn lines(&self) -> (r: &Vec<LogLine>)
        ensures
            r@ == self@,
    {
        &self.lines
    }

    pub fn max_lines(&self) -> (r: usize)
        ensures
            r == self.max(),
    {
        self.max_lines
    }

    pub fn prune_batch(&self) -> (r: usize)
        ensures
            r == self.batch(),
    {
        self.prune_batch
    }
}

} // verus!
