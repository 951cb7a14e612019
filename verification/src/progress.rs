//! Progress accounting for a scan: how many of the dispatched top-level
//! entries have completed, out of how many in total, exposed as a percentage.

use vstd::prelude::*;

verus! {

/// The percentage of `completed` out of `total`, rounded down; an empty
/// scan (no entries at all) counts as zero percent.
pub open spec fn percent_of(completed: nat, total: nat) -> nat {
    if total == 0 {
        0
    } else {
        completed * 100 / total
    }
}

/// Counts completed top-level entries against the total that was dispatched.
/// Many workers report here, one completion each; the presentation layer may
/// read the percentage at any time.
pub struct ProgressTracker {
    completed: u64,
    total: u64,
    forced: bool,
}

impl ProgressTracker {
    /// A tracker is well formed when it has never counted more completions
    /// than there are dispatched entries.
    pub open spec fn wf(&self) -> bool {
        self.completed() <= self.total()
    }

    /// How many entries have completed.
    pub closed spec fn completed(&self) -> nat {
        self.completed as nat
    }

    /// How many entries were dispatched.
    pub closed spec fn total(&self) -> nat {
        self.total as nat
    }

    /// Whether the terminal hundred percent has been forced.
    pub closed spec fn forced(&self) -> bool {
        self.forced
    }

    /// The percentage the tracker currently shows.
    pub open spec fn current_percent(&self) -> nat {
        if self.forced() {
            100
        } else {
            percent_of(self.completed(), self.total())
        }
    }

    /// A fresh tracker: nothing dispatched, nothing completed.
    pub fn new() -> (t: ProgressTracker)
        ensures
            t.wf(),
            t.completed() == 0,
            t.total() == 0,
            !t.forced(),
    {
        ProgressTracker { completed: 0, total: 0, forced: false }
    }

    /// Starts counting a new scan of `total` entries: the completion count
    /// returns to zero. Called once, before any worker starts.
    pub fn reset(&mut self, total: u64)
        ensures
            final(self).wf(),
            final(self).completed() == 0,
            final(self).total() == total,
            !final(self).forced(),
    {
        self.completed = 0;
        self.total = total;
        self.forced = false;
    }

    /// Records that one more dispatched entry has completed.
    pub fn record_one(&mut self)
        requires
            old(self).wf(),
            old(self).completed() < old(self).total(),
        ensures
            final(self).wf(),
            final(self).completed() == old(self).completed() + 1,
            final(self).total() == old(self).total(),
            final(self).forced() == old(self).forced(),
    {
        self.completed = self.completed + 1;
    }

    /// Forces the terminal hundred percent, once the orchestrator has
    /// confirmed that every worker finished: the reader always observes the
    /// scan end at exactly one hundred, whatever rounding left behind.
    pub fn force_complete(&mut self)
        ensures
            final(self).wf() == old(self).wf(),
            final(self).completed() == old(self).completed(),
            final(self).total() == old(self).total(),
            final(self).forced(),
            final(self).current_percent() == 100,
    {
        self.forced = true;
    }

    /// The percentage of dispatched entries that have completed, rounded
    /// down, between zero and one hundred; after `force_complete` it is one
    /// hundred unconditionally.
    pub fn percent(&self) -> (p: u64)
        requires
            self.wf(),
        ensures
            p == self.current_percent(),
            p <= 100,
    {
        if self.forced {
            100
        } else if self.total == 0 {
            0
        } else {
            let wide: u128 = (self.completed as u128) * 100 / (self.total as u128);
            proof {
                lemma_percent_bounded(self.completed(), self.total());
            }
            wide as u64
        }
    }
}

/// A percentage of a completion count that does not exceed the total never
/// exceeds one hundred.
pub proof fn lemma_percent_bounded(completed: nat, total: nat)
    requires
        completed <= total,
    ensures
        percent_of(completed, total) <= 100,
{
    if total > 0 {
        assert(completed * 100 / total <= 100) by (nonlinear_arith)
            requires
                0 <= completed <= total,
                total > 0,
        ;
    }
}

/// Progress never moves backwards within one scan: recording one more
/// completion cannot lower the percentage.
pub proof fn lemma_percent_monotonic(completed: nat, total: nat)
    requires
        completed < total,
    ensures
        percent_of(completed, total) <= percent_of(completed + 1, total),
{
    assert(completed * 100 / total <= (completed + 1) * 100 / total) by (nonlinear_arith)
        requires
            0 <= completed < total,
    ;
}

/// The percentage reaches exactly one hundred just when every dispatched
/// entry has completed: never before the last completion is recorded, and
/// always once it is.
pub proof fn lemma_percent_full_iff_done(completed: nat, total: nat)
    requires
        completed <= total,
        total > 0,
    ensures
        percent_of(completed, total) == 100 <==> completed == total,
{
    if completed == total {
        assert(total * 100 / total == 100) by (nonlinear_arith)
            requires
                total > 0,
        ;
    } else {
        assert(completed * 100 / total < 100) by (nonlinear_arith)
            requires
                0 <= completed < total,
        ;
    }
}

} // verus!
