//! The scan orchestrator, as a state machine over plain values. The caller
//! owns the enumeration of the root's children, the worker pool and the
//! probing of each child's subtree; every decision and every state change
//! goes through here, one exclusive call at a time:
//!
//! - `begin` opens a scan, refusing to overlap an active one;
//! - `dispatch` fixes how many children were enumerated;
//! - `record` stores one probed child and counts its completion;
//! - `finish` sorts the results, forces the terminal percentage and closes
//!   the scan.

use vstd::prelude::*;

use crate::paths::normalize_separators;
use crate::paths::normalized;
use crate::progress::ProgressTracker;
use crate::progress::percent_of;
use crate::store::Entry;
use crate::store::ResultStore;
use crate::store::distinct_sizes;
use crate::store::size_is;
use crate::store::sorted_desc;
use crate::store::views_of;
use crate::store::lemma_sorted_unique_when_sizes_distinct;

verus! {

/// Drives one scan at a time over a shared result store and progress
/// tracker. The caller serializes access: workers and the presentation
/// layer each take the state exclusively for the duration of one call.
pub struct Scanner {
    active: bool,
    progress: ProgressTracker,
    store: ResultStore,
}

impl Scanner {
    /// Whether a scan is in progress: true from `begin` until `finish`.
    pub closed spec fn active(&self) -> bool {
        self.active
    }

    /// How many recorded completions the current scan has seen.
    pub closed spec fn completed(&self) -> nat {
        self.progress.completed()
    }

    /// How many children the current scan dispatched.
    pub closed spec fn total(&self) -> nat {
        self.progress.total()
    }

    /// The (path, size) pairs the store currently holds, in store order.
    pub closed spec fn results(&self) -> Seq<(Seq<char>, u64)> {
        self.store@
    }

    /// The percentage a reader observes.
    pub closed spec fn shown_percent(&self) -> nat {
        self.progress.current_percent()
    }

    /// A scanner is well formed when its progress accounting is: completions
    /// never outnumber dispatched children, and the terminal hundred percent
    /// is never forced while a scan is still running.
    pub closed spec fn wf(&self) -> bool {
        self.progress.wf() && (self.active ==> !self.progress.forced())
    }

    /// A fresh scanner: idle, empty store, zero progress.
    pub fn new() -> (s: Scanner)
        ensures
            s.wf(),
            !s.active(),
            s.completed() == 0,
            s.total() == 0,
            s.results() == Seq::<(Seq<char>, u64)>::empty(),
            s.shown_percent() == 0,
    {
        Scanner { active: false, progress: ProgressTracker::new(), store: ResultStore::new() }
    }

    /// Opens a new scan, unless one is already in progress. A request that
    /// arrives while a scan is active is dropped whole: nothing about the
    /// running scan changes, and the caller gets `false`. Otherwise the
    /// store is emptied, progress returns to zero, and the scan flag is set.
    pub fn begin(&mut self) -> (accepted: bool)
        requires
            old(self).wf(),
        ensures
            final(self).wf(),
            accepted == !old(self).active(),
            !accepted ==> *final(self) == *old(self),
            accepted ==> final(self).active(),
            accepted ==> final(self).completed() == 0 && final(self).total() == 0,
            accepted ==> final(self).results() == Seq::<(Seq<char>, u64)>::empty(),
            accepted ==> final(self).shown_percent() == 0,
    {
        if self.active {
            return false;
        }
        self.active = true;
        self.store.clear();
        self.progress.reset(0);
        true
    }

    /// Fixes the number of enumerated children, once, before any worker
    /// starts. A missing or unreadable root enumerates as zero children.
    pub fn dispatch(&mut self, total: u64)
        requires
            old(self).wf(),
            old(self).active(),
            old(self).completed() == 0,
            old(self).total() == 0,
        ensures
            final(self).wf(),
            final(self).active(),
            final(self).completed() == 0,
            final(self).total() == total,
            final(self).results() == old(self).results(),
            final(self).shown_percent() == 0,
    {
        self.progress.reset(total);
    }

    /// Records one completed child: its entry is appended to the store (the
    /// path normalized for display), and then — never before — the
    /// completion is counted. Each dispatched child is recorded exactly
    /// once; the order across children is whatever the workers' scheduling
    /// happens to be.
    pub fn record(&mut self, path: &str, size: u64)
        requires
            old(self).wf(),
            old(self).active(),
            old(self).completed() < old(self).total(),
        ensures
            final(self).wf(),
            final(self).active(),
            final(self).total() == old(self).total(),
            final(self).completed() == old(self).completed() + 1,
            final(self).results() == old(self).results().push((normalized(path@), size)),
            final(self).shown_percent() == percent_of(final(self).completed(), final(self).total()),
    {
        let display = normalize_separators(path);
        self.store.append(Entry { path: display, size });
        self.progress.record_one();
    }

    /// Closes the scan once every dispatched child has been recorded: the
    /// store is sorted by size, largest first, the terminal hundred percent
    /// is forced, and the scan flag is cleared.
    pub fn finish(&mut self)
        requires
            old(self).wf(),
            old(self).active(),
            old(self).completed() == old(self).total(),
        ensures
            final(self).wf(),
            !final(self).active(),
            final(self).shown_percent() == 100,
            sorted_desc(final(self).results()),
            final(self).results().to_multiset() == old(self).results().to_multiset(),
            final(self).results().len() == old(self).results().len(),
            forall|v: u64| #![trigger final(self).results().filter(size_is(v))]
                final(self).results().filter(size_is(v)) == old(self).results().filter(size_is(v)),
    {
        self.store.sort_by_size();
        self.progress.force_complete();
        self.active = false;
    }

    /// Whether a scan is in progress right now.
    pub fn is_active(&self) -> (b: bool)
        ensures
            b == self.active(),
    {
        self.active
    }

    /// The percentage of dispatched children whose size is in, between zero
    /// and one hundred; exactly one hundred once a scan has finished.
    pub fn percent(&self) -> (p: u64)
        requires
            self.wf(),
        ensures
            p == self.shown_percent(),
            p <= 100,
    {
        self.progress.percent()
    }

    /// How many results the store holds.
    pub fn result_count(&self) -> (n: usize)
        ensures
            n == self.results().len(),
    {
        self.store.len()
    }

    /// A copy of the current results for rendering; safe at any time,
    /// including mid-scan, when the order is still the workers' completion
    /// order and must not be relied on.
    pub fn snapshot(&self) -> (r: Vec<Entry>)
        ensures
            views_of(r@) == self.results(),
    {
        self.store.snapshot()
    }

    /// Reads the entry at a position of the store.
    pub fn result_at(&self, i: usize) -> (e: &Entry)
        requires
            i < self.results().len(),
        ensures
            e@ == self.results()[i as int],
    {
        self.store.get(i)
    }

    /// Removes the entry at a position, when the user deletes it: the
    /// caller's view is updated at once, without waiting for — or ever
    /// learning about — the filesystem-side move to the trash, which runs
    /// elsewhere. Deletion is independent of scan state.
    pub fn remove_result(&mut self, i: usize) -> (e: Entry)
        requires
            i < old(self).results().len(),
        ensures
            final(self).results() == old(self).results().remove(i as int),
            e@ == old(self).results()[i as int],
            final(self).active() == old(self).active(),
            final(self).completed() == old(self).completed(),
            final(self).total() == old(self).total(),
            final(self).shown_percent() == old(self).shown_percent(),
            final(self).wf() == old(self).wf(),
    {
        self.store.remove_at(i)
    }
}

/// The store contents after one scan that recorded the children `evs`, in
/// that completion order, into an empty store: `record` appends one entry
/// per child.
pub open spec fn recorded_results(evs: Seq<(Seq<char>, u64)>) -> Seq<(Seq<char>, u64)>
    decreases evs.len(),
{
    if evs.len() == 0 {
        Seq::empty()
    } else {
        recorded_results(evs.drop_last()).push(evs.last())
    }
}

/// Recording one entry per dispatched child leaves the store holding exactly
/// those children, in completion order — so the completion count and the
/// store size both land on the number of children, never more or less,
/// whatever order the workers finished in.
pub proof fn lemma_recorded_exactly(evs: Seq<(Seq<char>, u64)>)
    ensures
        recorded_results(evs) =~= evs,
        recorded_results(evs).len() == evs.len(),
    decreases evs.len(),
{
    if evs.len() > 0 {
        lemma_recorded_exactly(evs.drop_last());
    }
}

/// Scanning an unmodified tree twice gives the same sorted result sequence
/// both times, although the workers of the two runs may have finished in
/// different orders — provided no two children share a size (two children of
/// equal size may come out in either relative order). `evs1` and `evs2` are
/// the two completion orders of the same children; `s1` and `s2` the two
/// stores after sorting.
pub proof fn lemma_rescan_same_result(
    evs1: Seq<(Seq<char>, u64)>,
    evs2: Seq<(Seq<char>, u64)>,
    s1: Seq<(Seq<char>, u64)>,
    s2: Seq<(Seq<char>, u64)>,
)
    requires
        evs1.to_multiset() == evs2.to_multiset(),
        s1.to_multiset() == recorded_results(evs1).to_multiset(),
        s2.to_multiset() == recorded_results(evs2).to_multiset(),
        sorted_desc(s1),
        sorted_desc(s2),
        distinct_sizes(s1),
    ensures
        s1 =~= s2,
{
    lemma_recorded_exactly(evs1);
    lemma_recorded_exactly(evs2);
    lemma_sorted_unique_when_sizes_distinct(s1, s2);
}

} // verus!
