//! Order statistics over keys: ascending order, rank, and the median.

use vstd::prelude::*;
use vstd::seq_lib::lemma_multiset_commutative;
use vstd::seq_lib::to_multiset_build;
use vstd::seq_lib::to_multiset_len;
use vstd::seq_lib::to_multiset_remove;
use vstd::seq_lib::to_multiset_contains;
use crate::error::IcpError;

verus! {

/// The keys stand in ascending order.
pub open spec fn ascending(s: Seq<u64>) -> bool {
    forall|i: int, j: int| 0 <= i <= j < s.len() ==> s[i] <= s[j]
}

/// The number of keys in `s` that are smaller than `bound`.
pub open spec fn count_below(s: Seq<u64>, bound: int) -> nat
    decreases s.len(),
{
    if s.len() == 0 {
        0
    } else {
        count_below(s.drop_last(), bound) + if s.last() < bound { 1nat } else { 0nat }
    }
}

/// `key` is what stands at position `rank` once the keys of `s` are put in
/// ascending order: at most `rank` keys are smaller, more than `rank` keys
/// are no greater.
pub open spec fn has_rank(s: Seq<u64>, rank: int, key: u64) -> bool {
    count_below(s, key as int) <= rank < count_below(s, key + 1)
}

/// `key` is the median of `s`: the key at position `len / 2` in ascending
/// order, the upper one of the two middle keys where the length is even.
pub open spec fn is_median(s: Seq<u64>, key: u64) -> bool {
    has_rank(s, s.len() as int / 2, key)
}

/// Counting over a concatenation adds the two counts.
pub proof fn lemma_count_below_concat(a: Seq<u64>, b: Seq<u64>, bound: int)
    ensures
        count_below(a + b, bound) == count_below(a, bound) + count_below(b, bound),
    decreases b.len(),
{
    if b.len() == 0 {
        assert(a + b =~= a);
    } else {
        assert((a + b).drop_last() =~= a + b.drop_last());
        assert((a + b).last() == b.last());
        lemma_count_below_concat(a, b.drop_last(), bound);
    }
}

/// A count is at most the length; it is the length where every key is below
/// the bound, and zero where none is.
pub proof fn lemma_count_below_bounds(s: Seq<u64>, bound: int)
    ensures
        count_below(s, bound) <= s.len(),
        (forall|i: int| 0 <= i < s.len() ==> s[i] < bound) ==> count_below(s, bound) == s.len(),
        (forall|i: int| 0 <= i < s.len() ==> s[i] >= bound) ==> count_below(s, bound) == 0,
    decreases s.len(),
{
    if s.len() > 0 {
        lemma_count_below_bounds(s.drop_last(), bound);
        assert(forall|i: int| 0 <= i < s.drop_last().len() ==> s.drop_last()[i] == s[i]);
    }
}

/// A greater bound counts no fewer keys.
pub proof fn lemma_count_below_monotone(s: Seq<u64>, low: int, high: int)
    requires
        low <= high,
    ensures
        count_below(s, low) <= count_below(s, high),
    decreases s.len(),
{
    if s.len() > 0 {
        lemma_count_below_monotone(s.drop_last(), low, high);
    }
}

/// Taking one key out lowers the count by one exactly when that key was
/// below the bound.
pub proof fn lemma_count_below_remove(s: Seq<u64>, i: int, bound: int)
    requires
        0 <= i < s.len(),
    ensures
        count_below(s, bound) == count_below(s.remove(i), bound) + if s[i] < bound {
            1nat
        } else {
            0nat
        },
{
    let head = s.subrange(0, i);
    let tail = s.subrange(i + 1, s.len() as int);
    let one = seq![s[i]];
    assert(s =~= head + one + tail);
    assert(s.remove(i) =~= head + tail);
    lemma_count_below_concat(head + one, tail, bound);
    lemma_count_below_concat(head, one, bound);
    lemma_count_below_concat(head, tail, bound);
    assert(one.drop_last() =~= Seq::<u64>::empty());
    assert(count_below(one.drop_last(), bound) == 0);
    assert(one.last() == s[i]);
}

/// A count depends on which keys there are and how often, not on where
/// they stand.
pub proof fn lemma_count_below_rearranged(a: Seq<u64>, b: Seq<u64>, bound: int)
    requires
        a.to_multiset() == b.to_multiset(),
    ensures
        count_below(a, bound) == count_below(b, bound),
    decreases a.len(),
{
    to_multiset_len(a);
    to_multiset_len(b);
    if a.len() > 0 {
        let last = a.len() - 1;
        let x = a[last];
        to_multiset_contains(a, x);
        to_multiset_contains(b, x);
        assert(a.contains(x));
        let i = choose|i: int| 0 <= i < b.len() && b[i] == x;
        to_multiset_remove(a, last);
        to_multiset_remove(b, i);
        assert(a.remove(last) =~= a.drop_last());
        lemma_count_below_rearranged(a.drop_last(), b.remove(i), bound);
        lemma_count_below_remove(b, i, bound);
    }
}

/// In ascending order, the key at a position has that position as its rank.
pub proof fn lemma_ascending_rank(s: Seq<u64>, rank: int)
    requires
        ascending(s),
        0 <= rank < s.len(),
    ensures
        has_rank(s, rank, s[rank]),
{
    let key = s[rank];
    let head = s.subrange(0, rank);
    let tail = s.subrange(rank, s.len() as int);
    assert(s =~= head + tail);
    lemma_count_below_concat(head, tail, key as int);
    lemma_count_below_bounds(head, key as int);
    lemma_count_below_bounds(tail, key as int);
    let upto = s.subrange(0, rank + 1);
    let rest = s.subrange(rank + 1, s.len() as int);
    assert(s =~= upto + rest);
    lemma_count_below_concat(upto, rest, key + 1);
    lemma_count_below_bounds(upto, key + 1);
}

/// No two keys share a rank: the rank pins the key.
pub proof fn lemma_rank_unique(s: Seq<u64>, rank: int, a: u64, b: u64)
    requires
        has_rank(s, rank, a),
        has_rank(s, rank, b),
    ensures
        a == b,
{
    if a < b {
        lemma_count_below_monotone(s, a + 1, b as int);
    }
    if b < a {
        lemma_count_below_monotone(s, b + 1, a as int);
    }
}

/// A key that has a rank is one of the keys.
pub proof fn lemma_rank_member(s: Seq<u64>, rank: int, key: u64)
    requires
        has_rank(s, rank, key),
    ensures
        s.contains(key),
    decreases s.len(),
{
    if s.len() == 0 {
    } else if s.last() == key {
        assert(s[s.len() - 1] == key);
    } else {
        let front = s.drop_last();
        let below = count_below(front, key as int);
        assert(count_below(front, key as int) < count_below(front, key + 1));
        lemma_rank_member(front, below as int, key);
        let i = choose|i: int| 0 <= i < front.len() && front[i] == key;
        assert(s[i] == key);
    }
}

/// A set of keys has at most one median.
pub proof fn lemma_median_unique(s: Seq<u64>, a: u64, b: u64)
    requires
        is_median(s, a),
        is_median(s, b),
    ensures
        a == b,
{
    lemma_rank_unique(s, s.len() as int / 2, a, b);
}

/// The median is one of the keys.
pub proof fn lemma_median_member(s: Seq<u64>, key: u64)
    requires
        is_median(s, key),
    ensures
        s.contains(key),
{
    lemma_rank_member(s, s.len() as int / 2, key);
}

/// The median is a statistic of the whole set: it does not depend on the
/// order in which the keys are handed in.
pub proof fn lemma_median_rearranged(a: Seq<u64>, b: Seq<u64>, key: u64)
    requires
        a.to_multiset() == b.to_multiset(),
        is_median(a, key),
    ensures
        is_median(b, key),
{
    to_multiset_len(a);
    to_multiset_len(b);
    lemma_count_below_rearranged(a, b, key as int);
    lemma_count_below_rearranged(a, b, key + 1);
}

/// The median is robust: a key above it can be moved further out, as far as
/// one likes, and the median stays where it is.
pub proof fn lemma_median_ignores_outlier(s: Seq<u64>, key: u64, i: int, farther: u64)
    requires
        is_median(s, key),
        0 <= i < s.len(),
        key < s[i] <= farther,
    ensures
        is_median(s.update(i, farther), key),
{
    let moved = s.update(i, farther);
    assert(moved.remove(i) =~= s.remove(i));
    lemma_count_below_remove(s, i, key as int);
    lemma_count_below_remove(moved, i, key as int);
    lemma_count_below_remove(s, i, key + 1);
    lemma_count_below_remove(moved, i, key + 1);
}

/// Merges two ascending runs into one.
fn merge(left: &Vec<u64>, right: &Vec<u64>) -> (out: Vec<u64>)
    requires
        ascending(left@),
        ascending(right@),
        left.len() + right.len() <= usize::MAX,
    ensures
        ascending(out@),
        out@.to_multiset() == left@.to_multiset().add(right@.to_multiset()),
        out.len() == left.len() + right.len(),
{
    let mut out: Vec<u64> = Vec::new();
    let mut i: usize = 0;
    let mut j: usize = 0;
    proof {
        let none = Seq::<u64>::empty();
        assert(left@.subrange(0, 0) =~= none);
        assert(right@.subrange(0, 0) =~= none);
        assert(out@ =~= none + none);
        lemma_multiset_commutative(none, none);
    }
    while i < left.len() || j < right.len()
        invariant
            i <= left.len(),
            j <= right.len(),
            left.len() + right.len() <= usize::MAX,
            ascending(left@),
            ascending(right@),
            ascending(out@),
            out.len() == i + j,
            out@.to_multiset() == left@.subrange(0, i as int).to_multiset().add(
                right@.subrange(0, j as int).to_multiset(),
            ),
            forall|k: int, m: int| 0 <= k < out.len() && i <= m < left.len() ==> out[k] <= left[m],
            forall|k: int, m: int| 0 <= k < out.len() && j <= m < right.len() ==> out[k] <= right[m],
        decreases left.len() - i + right.len() - j,
    {
        let ghost before = out@;
        let from_left = if j >= right.len() {
            true
        } else if i >= left.len() {
            false
        } else {
            left[i] <= right[j]
        };
        if from_left {
            let key = left[i];
            out.push(key);
            proof {
                to_multiset_build(before, key);
                to_multiset_build(left@.subrange(0, i as int), key);
                assert(left@.subrange(0, i + 1) =~= left@.subrange(0, i as int).push(key));
                assert(out@.to_multiset() =~= left@.subrange(0, i + 1).to_multiset().add(
                    right@.subrange(0, j as int).to_multiset(),
                ));
            }
            i = i + 1;
        } else {
            let key = right[j];
            out.push(key);
            proof {
                to_multiset_build(before, key);
                to_multiset_build(right@.subrange(0, j as int), key);
                assert(right@.subrange(0, j + 1) =~= right@.subrange(0, j as int).push(key));
                assert(out@.to_multiset() =~= left@.subrange(0, i as int).to_multiset().add(
                    right@.subrange(0, j + 1).to_multiset(),
                ));
            }
            j = j + 1;
        }
    }
    proof {
        assert(left@.subrange(0, i as int) =~= left@);
        assert(right@.subrange(0, j as int) =~= right@);
    }
    out
}

/// Sorts the keys at positions `lo..hi` into a new vector.
fn sort_range(keys: &Vec<u64>, lo: usize, hi: usize) -> (out: Vec<u64>)
    requires
        lo <= hi <= keys.len(),
    ensures
        ascending(out@),
        out@.to_multiset() == keys@.subrange(lo as int, hi as int).to_multiset(),
        out.len() == hi - lo,
    decreases hi - lo,
{
    if hi - lo == 0 {
        let out: Vec<u64> = Vec::new();
        proof {
            assert(keys@.subrange(lo as int, hi as int) =~= out@);
        }
        out
    } else if hi - lo == 1 {
        let mut out: Vec<u64> = Vec::new();
        out.push(keys[lo]);
        proof {
            assert(keys@.subrange(lo as int, hi as int) =~= out@);
        }
        out
    } else {
        let mid: usize = lo + (hi - lo) / 2;
        let left = sort_range(keys, lo, mid);
        let right = sort_range(keys, mid, hi);
        proof {
            let whole = keys@.subrange(lo as int, hi as int);
            let front = keys@.subrange(lo as int, mid as int);
            let back = keys@.subrange(mid as int, hi as int);
            assert(whole =~= front + back);
            lemma_multiset_commutative(front, back);
        }
        merge(&left, &right)
    }
}

/// The keys in ascending order: every key as often as it was handed in.
pub fn sort(keys: &Vec<u64>) -> (out: Vec<u64>)
    ensures
        ascending(out@),
        out@.to_multiset() == keys@.to_multiset(),
        out.len() == keys.len(),
{
    proof {
        assert(keys@.subrange(0, keys.len() as int) =~= keys@);
    }
    sort_range(keys, 0, keys.len())
}

/// The median of the keys: the key at position `len / 2` in ascending order.
/// An empty set has none.
pub fn median(keys: &Vec<u64>) -> (found: Result<u64, IcpError>)
    ensures
        keys.len() == 0 <==> found == Err::<u64, IcpError>(IcpError::InvalidInput),
        keys.len() > 0 <==> found is Ok,
        found matches Ok(key) ==> is_median(keys@, key),
{
    if keys.len() == 0 {
        return Err(IcpError::InvalidInput);
    }
    let ordered = sort(keys);
    let middle: usize = ordered.len() / 2;
    let key = ordered[middle];
    proof {
        lemma_ascending_rank(ordered@, middle as int);
        lemma_count_below_rearranged(ordered@, keys@, key as int);
        lemma_count_below_rearranged(ordered@, keys@, key + 1);
    }
    Ok(key)
}

} // verus!
