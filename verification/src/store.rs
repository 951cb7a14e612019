//! The result store: the ordered collection of scan results. Workers append
//! entries while a scan runs; the orchestrator sorts the store by size,
//! largest first, once the scan completes; the presentation layer takes
//! snapshots at any time and removes an entry when the user deletes it.

use vstd::prelude::*;

verus! {

/// One scan result: an immediate child of the scanned root, by its display
/// path, with the total byte size of its subtree. An entry is never changed
/// in place; a later rescan replaces the whole set.
pub struct Entry {
    pub path: String,
    pub size: u64,
}

impl View for Entry {
    type V = (Seq<char>, u64);

    open spec fn view(&self) -> (Seq<char>, u64) {
        (self.path@, self.size)
    }
}

/// The abstract contents of a sequence of entries: each entry as its
/// (path, size) pair.
pub open spec fn views_of(s: Seq<Entry>) -> Seq<(Seq<char>, u64)> {
    s.map_values(|e: Entry| e@)
}

/// True when the sizes never increase along the sequence.
pub open spec fn sorted_desc(s: Seq<(Seq<char>, u64)>) -> bool {
    forall|i: int, j: int| #![trigger s[i], s[j]] 0 <= i < j < s.len() ==> s[i].1 >= s[j].1
}

/// True when no two entries of the sequence share a size.
pub open spec fn distinct_sizes(s: Seq<(Seq<char>, u64)>) -> bool {
    forall|i: int, j: int| #![trigger s[i], s[j]] 0 <= i < j < s.len() ==> s[i].1 != s[j].1
}

/// Membership in one size class: the predicate holding of exactly the
/// entries of size `v`.
pub open spec fn size_is(v: u64) -> spec_fn((Seq<char>, u64)) -> bool {
    |p: (Seq<char>, u64)| p.1 == v
}

/// A sequence with no entry of the filtered kind filters to nothing.
proof fn lemma_filter_none(s: Seq<(Seq<char>, u64)>, pred: spec_fn((Seq<char>, u64)) -> bool)
    requires
        forall|k: int| 0 <= k < s.len() ==> !pred(#[trigger] s[k]),
    ensures
        s.filter(pred) =~= Seq::<(Seq<char>, u64)>::empty(),
    decreases s.len(),
{
    reveal(Seq::filter);
    if s.len() > 0 {
        assert(forall|k: int| 0 <= k < s.drop_last().len() ==> #[trigger] s.drop_last()[k]
            == s[k]);
        lemma_filter_none(s.drop_last(), pred);
    }
}

/// A single entry filters to itself or to nothing, by the predicate.
proof fn lemma_filter_singleton(e: (Seq<char>, u64), pred: spec_fn((Seq<char>, u64)) -> bool)
    ensures
        pred(e) ==> seq![e].filter(pred) =~= seq![e],
        !pred(e) ==> seq![e].filter(pred) =~= Seq::<(Seq<char>, u64)>::empty(),
{
    reveal(Seq::filter);
    let s = seq![e];
    let none = Seq::<(Seq<char>, u64)>::empty();
    assert(s.drop_last() =~= none);
    assert(none.filter(pred) =~= none);
    assert(s.last() == e);
}

/// Taking an entry out and putting it back further left, past strictly
/// smaller entries only, leaves every size class of the sequence as it was:
/// for each size, the subsequence of entries of that size is unchanged.
proof fn lemma_move_left_keeps_size_classes(pre: Seq<(Seq<char>, u64)>, i: int, j: int)
    requires
        0 <= j <= i < pre.len(),
        forall|k: int| #![trigger pre[k]] j <= k < i ==> pre[k].1 < pre[i].1,
    ensures
        forall|v: u64| #![trigger pre.remove(i).insert(j, pre[i]).filter(size_is(v))]
            pre.remove(i).insert(j, pre[i]).filter(size_is(v)) == pre.filter(size_is(v)),
{
    let e = pre[i];
    let a1 = pre.subrange(0, j);
    let a2 = pre.subrange(j, i);
    let c = pre.subrange(i + 1, pre.len() as int);
    let mid = pre.remove(i);
    let new = mid.insert(j, e);
    assert(mid =~= (a1 + a2) + c);
    assert(mid.subrange(0, j) =~= a1);
    assert(mid.subrange(j, mid.len() as int) =~= a2 + c);
    assert(new =~= (a1 + seq![e]) + (a2 + c));
    assert(pre =~= ((a1 + a2) + seq![e]) + c);
    assert forall|v: u64| new.filter(size_is(v)) == pre.filter(size_is(v)) by {
        let pred = size_is(v);
        Seq::filter_distributes_over_add(a1 + seq![e], a2 + c, pred);
        Seq::filter_distributes_over_add(a1, seq![e], pred);
        Seq::filter_distributes_over_add(a2, c, pred);
        Seq::filter_distributes_over_add((a1 + a2) + seq![e], c, pred);
        Seq::filter_distributes_over_add(a1 + a2, seq![e], pred);
        Seq::filter_distributes_over_add(a1, a2, pred);
        lemma_filter_singleton(e, pred);
        if v == e.1 {
            assert(forall|k: int| 0 <= k < a2.len() ==> !pred(#[trigger] a2[k])) by {
                assert(forall|k: int| 0 <= k < a2.len() ==> #[trigger] a2[k] == pre[j + k]);
            }
            lemma_filter_none(a2, pred);
            assert(new.filter(pred) =~= (a1.filter(pred) + seq![e]) + c.filter(pred));
            assert(pre.filter(pred) =~= (a1.filter(pred) + seq![e]) + c.filter(pred));
        } else {
            assert(new.filter(pred) =~= (a1.filter(pred) + a2.filter(pred)) + c.filter(pred));
            assert(pre.filter(pred) =~= (a1.filter(pred) + a2.filter(pred)) + c.filter(pred));
        }
    }
}

/// Removing an entry at one index keeps every other position's pair.
proof fn lemma_views_remove(s: Seq<Entry>, i: int)
    requires
        0 <= i < s.len(),
    ensures
        views_of(s.remove(i)) =~= views_of(s).remove(i),
{
    s.remove_ensures(i);
    views_of(s).remove_ensures(i);
    assert forall|k: int| 0 <= k < s.len() - 1 implies views_of(s.remove(i))[k] == views_of(
        s,
    ).remove(i)[k] by {
        if k < i {
        } else {
            assert(s.remove(i)[k] == s[k + 1]);
            assert(views_of(s).remove(i)[k] == views_of(s)[k + 1]);
        }
    }
}

/// Inserting an entry at one index keeps every other position's pair.
proof fn lemma_views_insert(s: Seq<Entry>, i: int, e: Entry)
    requires
        0 <= i <= s.len(),
    ensures
        views_of(s.insert(i, e)) =~= views_of(s).insert(i, e@),
{
    s.insert_ensures(i, e);
    views_of(s).insert_ensures(i, e@);
    assert forall|k: int| 0 <= k < s.len() + 1 implies views_of(s.insert(i, e))[k] == views_of(
        s,
    ).insert(i, e@)[k] by {
        if k < i {
        } else if k == i {
        } else {
            assert(s.insert(i, e)[(k - 1) + 1] == s[k - 1]);
            assert(views_of(s).insert(i, e@)[(k - 1) + 1] == views_of(s)[k - 1]);
        }
    }
}

/// The shared, ordered collection of (path, size) results of the current
/// scan. Access is exclusive per operation; the caller serializes concurrent
/// use around each call.
pub struct ResultStore {
    entries: Vec<Entry>,
}

impl View for ResultStore {
    type V = Seq<(Seq<char>, u64)>;

    closed spec fn view(&self) -> Seq<(Seq<char>, u64)> {
        views_of(self.entries@)
    }
}

impl ResultStore {
    /// An empty store.
    pub fn new() -> (s: ResultStore)
        ensures
            s@ == Seq::<(Seq<char>, u64)>::empty(),
    {
        let s = ResultStore { entries: Vec::new() };
        proof {
            assert(s@ =~= Seq::<(Seq<char>, u64)>::empty());
        }
        s
    }

    /// How many entries the store currently holds.
    pub fn len(&self) -> (n: usize)
        ensures
            n == self@.len(),
    {
        self.entries.len()
    }

    /// Empties the store before a new scan begins.
    pub fn clear(&mut self)
        ensures
            final(self)@ == Seq::<(Seq<char>, u64)>::empty(),
    {
        self.entries.clear();
        proof {
            assert(self@ =~= Seq::<(Seq<char>, u64)>::empty());
        }
    }

    /// Adds one completed entry at the end.
    pub fn append(&mut self, e: Entry)
        ensures
            final(self)@ == old(self)@.push(e@),
    {
        let ghost before = self.entries@;
        let ghost ev = e@;
        self.entries.push(e);
        proof {
            assert(self@ =~= views_of(before).push(ev));
        }
    }

    /// Reads the entry at a position.
    pub fn get(&self, i: usize) -> (e: &Entry)
        requires
            i < self@.len(),
        ensures
            e@ == self@[i as int],
    {
        &self.entries[i]
    }

    /// A copy of the current sequence, for read-only rendering; safe to take
    /// at any time, including mid-scan.
    pub fn snapshot(&self) -> (r: Vec<Entry>)
        ensures
            views_of(r@) == self@,
    {
        let mut r: Vec<Entry> = Vec::new();
        let mut i: usize = 0;
        while i < self.entries.len()
            invariant
                i <= self.entries@.len(),
                self@.len() == self.entries@.len(),
                views_of(r@) == self@.subrange(0, i as int),
            decreases self.entries@.len() - i,
        {
            let e = &self.entries[i];
            let copy = Entry { path: e.path.clone(), size: e.size };
            proof {
                assert(copy@ == self@[i as int]);
            }
            let ghost rv = r@;
            r.push(copy);
            proof {
                assert(views_of(r@) =~= self@.subrange(0, i + 1)) by {
                    assert(views_of(r@) =~= views_of(rv).push(self@[i as int]));
                }
            }
            i = i + 1;
        }
        proof {
            assert(self@.subrange(0, self@.len() as int) =~= self@);
        }
        r
    }

    /// Removes and returns the entry at a position, after the presentation
    /// layer asked for its deletion. Its pair leaves the store at once; the
    /// filesystem side of a deletion happens elsewhere and is never awaited.
    pub fn remove_at(&mut self, i: usize) -> (e: Entry)
        requires
            i < old(self)@.len(),
        ensures
            final(self)@ == old(self)@.remove(i as int),
            e@ == old(self)@[i as int],
    {
        let ghost before = self.entries@;
        let e = self.entries.remove(i);
        proof {
            lemma_views_remove(before, i as int);
        }
        e
    }

    /// Reorders the entries by size, largest first, once the scan has
    /// completed. The entries afterwards are exactly those present before
    /// the call, and entries of equal size keep their relative order: every
    /// size class comes out as it went in.
    pub fn sort_by_size(&mut self)
        ensures
            final(self)@.to_multiset() == old(self)@.to_multiset(),
            final(self)@.len() == old(self)@.len(),
            sorted_desc(final(self)@),
            forall|v: u64| #![trigger final(self)@.filter(size_is(v))]
                final(self)@.filter(size_is(v)) == old(self)@.filter(size_is(v)),
    {
        broadcast use vstd::seq_lib::group_to_multiset_ensures;
        broadcast use vstd::multiset::group_multiset_axioms;

        let ghost orig = self@;
        if self.entries.len() <= 1 {
            return ;
        }
        let mut i: usize = 1;
        while i < self.entries.len()
            invariant
                1 <= i <= self@.len(),
                self@.len() == self.entries@.len(),
                self@.len() == orig.len(),
                self@.to_multiset() == orig.to_multiset(),
                sorted_desc(self@.subrange(0, i as int)),
                forall|v: u64| #![trigger self@.filter(size_is(v))]
                    self@.filter(size_is(v)) == orig.filter(size_is(v)),
            decreases self@.len() - i,
        {
            let ghost pre = self@;
            let ghost pre_entries = self.entries@;
            let e = self.entries.remove(i);
            let ghost ev = e@;
            proof {
                lemma_views_remove(pre_entries, i as int);
                pre.remove_ensures(i as int);
                assert(ev == pre[i as int]);
            }
            let ghost mid = self@;
            let mut j: usize = i;
            while j > 0 && self.entries[j - 1].size < e.size
                invariant
                    j <= i,
                    i < pre.len(),
                    self@ == mid,
                    mid == pre.remove(i as int),
                    mid.len() == pre.len() - 1,
                    self@.len() == self.entries@.len(),
                    e@ == ev,
                    forall|k: int| #![trigger mid[k]] j <= k < i ==> mid[k].1 < ev.1,
                decreases j,
            {
                proof {
                    assert(self.entries@[j - 1]@ == mid[j - 1]);
                }
                j = j - 1;
            }
            proof {
                assert(j == 0 || mid[j - 1].1 >= ev.1) by {
                    if j > 0 {
                        assert(self.entries@[j - 1]@ == mid[j - 1]);
                    }
                }
            }
            let ghost mid_entries = self.entries@;
            self.entries.insert(j, e);
            proof {
                lemma_views_insert(mid_entries, j as int, e);
                mid.insert_ensures(j as int, ev);
                let new = self@;
                assert(new == mid.insert(j as int, ev));
                // The prefix grows by one and stays sorted: everything left
                // of the insertion point is at least as large as the new
                // entry, everything between there and the old position is
                // strictly smaller.
                assert forall|a: int, b: int| 0 <= a < b < i + 1 implies new[a].1 >= new[b].1 by {
                    assert(sorted_desc(pre.subrange(0, i as int)));
                    assert(forall|k: int| #![trigger mid[k]] 0 <= k < i ==> mid[k] == pre[k]);
                    assert(forall|a2: int, b2: int|
                        #![trigger mid[a2], mid[b2]]
                        0 <= a2 < b2 < i ==> mid[a2].1 >= mid[b2].1) by {
                        assert(forall|k: int| #![trigger pre.subrange(0, i as int)[k]]
                            0 <= k < i ==> pre.subrange(0, i as int)[k] == pre[k]);
                    }
                    if b < j {
                        assert(new[a] == mid[a] && new[b] == mid[b]);
                    } else if b == j {
                        assert(new[b] == ev);
                        assert(new[a] == mid[a]);
                        assert(mid[a].1 >= mid[j - 1].1);
                    } else {
                        assert(new[b] == mid[b - 1]);
                        if a < j {
                            assert(new[a] == mid[a]);
                            assert(mid[b - 1].1 < ev.1);
                            if j > 0 {
                                assert(mid[a].1 >= mid[j - 1].1 >= ev.1);
                            }
                        } else if a == j {
                            assert(new[a] == ev);
                            assert(mid[b - 1].1 < ev.1);
                        } else {
                            assert(new[a] == mid[a - 1]);
                        }
                    }
                }
                assert(sorted_desc(new.subrange(0, (i + 1) as int))) by {
                    assert(forall|k: int| #![trigger new.subrange(0, (i + 1) as int)[k]]
                        0 <= k < i + 1 ==> new.subrange(0, (i + 1) as int)[k] == new[k]);
                }
                // The multiset is restored: the moved entry was taken out
                // and put back.
                assert(new.to_multiset() =~= pre.to_multiset()) by {
                    broadcast use vstd::multiset::group_multiset_axioms;

                    assert(pre.contains(pre[i as int]));
                    vstd::seq_lib::to_multiset_contains(pre, ev);
                    vstd::seq_lib::to_multiset_remove(pre, i as int);
                    vstd::seq_lib::to_multiset_insert(mid, j as int, ev);
                    assert(mid.to_multiset() == pre.to_multiset().remove(ev));
                    assert(new.to_multiset() == mid.to_multiset().insert(ev));
                }
                // Every size class is as it was: the moved entry went left
                // past strictly smaller entries only.
                assert forall|k: int| #![trigger pre[k]] j <= k < i implies pre[k].1
                    < pre[i as int].1 by {
                    assert(mid[k] == pre[k]);
                }
                lemma_move_left_keeps_size_classes(pre, i as int, j as int);
                assert forall|v: u64| #![trigger self@.filter(size_is(v))] self@.filter(
                    size_is(v),
                ) == orig.filter(size_is(v)) by {
                    assert(self@ == pre.remove(i as int).insert(j as int, pre[i as int]));
                    assert(pre.remove(i as int).insert(j as int, pre[i as int]).filter(size_is(v))
                        == pre.filter(size_is(v)));
                    assert(pre.filter(size_is(v)) == orig.filter(size_is(v)));
                }
            }
            i = i + 1;
        }
        proof {
            assert(self@.subrange(0, self@.len() as int) =~= self@);
        }
    }
}

/// Two sorted result sequences holding the same entries are the same
/// sequence, provided no two entries share a size: with all sizes distinct,
/// the descending order leaves no freedom. In particular, rescanning an
/// unmodified tree gives the same sorted result sequence however the workers
/// happened to finish.
pub proof fn lemma_sorted_unique_when_sizes_distinct(
    x: Seq<(Seq<char>, u64)>,
    y: Seq<(Seq<char>, u64)>,
)
    requires
        sorted_desc(x),
        sorted_desc(y),
        distinct_sizes(x),
        x.to_multiset() == y.to_multiset(),
    ensures
        x =~= y,
    decreases x.len(),
{
    broadcast use vstd::seq_lib::group_to_multiset_ensures;
    broadcast use vstd::multiset::group_multiset_axioms;

    if x.len() == 0 {
        assert(x.to_multiset().len() == 0);
    } else {
        assert(x.to_multiset().len() == y.to_multiset().len());
        assert(y.len() > 0);
        assert(x.contains(x[0]));
        assert(y.to_multiset().count(x[0]) > 0);
        assert(y.contains(x[0]));
        let jy = choose|jy: int| 0 <= jy < y.len() && y[jy] == x[0];
        assert(y.contains(y[0]));
        assert(x.to_multiset().count(y[0]) > 0);
        assert(x.contains(y[0]));
        let jx = choose|jx: int| 0 <= jx < x.len() && x[jx] == y[0];
        assert(y[0].1 >= y[jy].1);
        assert(x[0].1 >= x[jx].1);
        assert(x[0].1 == y[0].1);
        assert(jx == 0);
        assert(x[0] == y[0]);
        let xt = x.drop_first();
        let yt = y.drop_first();
        assert(x.remove(0) =~= xt);
        assert(y.remove(0) =~= yt);
        assert(xt.to_multiset() =~= x.to_multiset().remove(x[0]));
        assert(yt.to_multiset() =~= y.to_multiset().remove(y[0]));
        assert(sorted_desc(xt) && distinct_sizes(xt)) by {
            assert(forall|k: int| #![trigger xt[k]] 0 <= k < xt.len() ==> xt[k] == x[k + 1]);
        }
        assert(sorted_desc(yt)) by {
            assert(forall|k: int| #![trigger yt[k]] 0 <= k < yt.len() ==> yt[k] == y[k + 1]);
        }
        lemma_sorted_unique_when_sizes_distinct(xt, yt);
        assert forall|k: int| 0 <= k < x.len() implies x[k] == y[k] by {
            if k > 0 {
                assert(x[k] == xt[k - 1] && y[k] == yt[k - 1]);
            }
        }
    }
}

/// Once the entry at a position is removed, no entry with its path remains,
/// provided no other entry shared that path: a snapshot taken after the
/// removal no longer shows it, whether or not the filesystem deletion has
/// completed.
pub proof fn lemma_removed_path_absent(s: Seq<(Seq<char>, u64)>, i: int)
    requires
        0 <= i < s.len(),
        forall|j: int| #![trigger s[j]] 0 <= j < s.len() && j != i ==> s[j].0 != s[i].0,
    ensures
        forall|j: int| #![trigger s.remove(i)[j]]
            0 <= j < s.remove(i).len() ==> s.remove(i)[j].0 != s[i].0,
{
    s.remove_ensures(i);
    assert forall|j: int| 0 <= j < s.remove(i).len() implies s.remove(i)[j].0 != s[i].0 by {
        if j < i {
            assert(s.remove(i)[j] == s[j]);
        } else {
            assert(s.remove(i)[j] == s[j + 1]);
        }
    }
}

} // verus!
