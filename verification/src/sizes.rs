//! The size probe: aggregates the byte sizes reported for the entries of a
//! subtree into one total.
//!
//! The caller enumerates a subtree and reads each entry's metadata; every
//! entry arrives here as `Some(byte_length)`, or `None` where the metadata
//! could not be read. An unreadable entry contributes zero rather than
//! failing the probe, so partial information is preferred over scan failure.

use vstd::prelude::*;

verus! {

/// The byte contribution of one filesystem entry: an unreadable entry
/// (no metadata) counts as zero.
pub open spec fn meta_size(m: Option<u64>) -> nat {
    match m {
        Some(len) => len as nat,
        None => 0,
    }
}

/// The total byte contribution of a sequence of entries.
pub open spec fn sum_sizes(s: Seq<Option<u64>>) -> nat
    decreases s.len(),
{
    if s.len() == 0 {
        0
    } else {
        sum_sizes(s.drop_last()) + meta_size(s.last())
    }
}

/// A mathematical total clamped to what a 64-bit byte counter can hold.
pub open spec fn clamped(n: nat) -> u64 {
    if n <= u64::MAX {
        n as u64
    } else {
        u64::MAX
    }
}

/// Computes the total size of one probed subtree: the sum of the byte sizes
/// of all its entries, with unreadable entries counting as zero. A total
/// beyond the range of a 64-bit counter saturates instead of wrapping.
pub fn subtree_size(metas: &Vec<Option<u64>>) -> (total: u64)
    ensures
        total == clamped(sum_sizes(metas@)),
{
    let mut acc: u64 = 0;
    let mut i: usize = 0;
    while i < metas.len()
        invariant
            i <= metas@.len(),
            acc == clamped(sum_sizes(metas@.subrange(0, i as int))),
        decreases metas@.len() - i,
    {
        let v: u64 = match metas[i] {
            Some(len) => len,
            None => 0,
        };
        proof {
            let pre = metas@.subrange(0, i as int);
            let post = metas@.subrange(0, i + 1);
            assert(post.drop_last() =~= pre);
            assert(post.last() == metas@[i as int]);
        }
        if v > u64::MAX - acc {
            acc = u64::MAX;
        } else {
            acc = acc + v;
        }
        i = i + 1;
    }
    proof {
        assert(metas@.subrange(0, metas@.len() as int) =~= metas@);
    }
    acc
}

/// Removing one entry from a sequence removes exactly its contribution from
/// the total.
proof fn lemma_sum_remove(s: Seq<Option<u64>>, i: int)
    requires
        0 <= i < s.len(),
    ensures
        sum_sizes(s) == sum_sizes(s.remove(i)) + meta_size(s[i]),
    decreases s.len(),
{
    if i == s.len() - 1 {
        assert(s.remove(i) =~= s.drop_last());
    } else {
        assert(s.remove(i).drop_last() =~= s.drop_last().remove(i));
        assert(s.remove(i).last() == s.last());
        lemma_sum_remove(s.drop_last(), i);
    }
}

/// The probe total does not depend on traversal order: any two enumerations
/// of the same entries (the same multiset, in any order) have the same sum.
pub proof fn lemma_sum_order_independent(a: Seq<Option<u64>>, b: Seq<Option<u64>>)
    requires
        a.to_multiset() == b.to_multiset(),
    ensures
        sum_sizes(a) == sum_sizes(b),
    decreases a.len(),
{
    broadcast use vstd::seq_lib::group_to_multiset_ensures;
    broadcast use vstd::multiset::group_multiset_axioms;

    if a.len() == 0 {
        assert(a.to_multiset().len() == 0);
        assert(b.len() == 0);
    } else {
        let e = a.last();
        assert(a[a.len() - 1] == e);
        assert(a.contains(e));
        assert(b.to_multiset().count(e) > 0);
        assert(b.contains(e));
        let j = choose|j: int| 0 <= j < b.len() && b[j] == e;
        lemma_sum_remove(b, j);
        assert(a.remove(a.len() - 1) =~= a.drop_last());
        assert(a.drop_last().to_multiset() =~= a.to_multiset().remove(e));
        assert(b.remove(j).to_multiset() =~= b.to_multiset().remove(e));
        lemma_sum_order_independent(a.drop_last(), b.remove(j));
    }
}

} // verus!
