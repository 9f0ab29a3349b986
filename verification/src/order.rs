//! Ascending order on round-trip times: what it means for a sample to be
//! sorted, and a merge sort that produces the sorted sample.

use vstd::multiset::group_multiset_axioms;
use vstd::prelude::*;
use vstd::relations::{sorted_by, total_ordering};
use vstd::seq_lib::{group_to_multiset_ensures, lemma_multiset_commutative, lemma_sorted_unique};

verus! {

/// The order in which round-trip times are compared: by value.
pub open spec fn by_value() -> spec_fn(u64, u64) -> bool {
    |a: u64, b: u64| a <= b
}

/// No element of `times` is greater than a later one.
pub open spec fn is_ascending(times: Seq<u64>) -> bool {
    forall|i: int, j: int| 0 <= i < j < times.len() ==> times[i] <= times[j]
}

/// The ascending arrangement of `times`.
pub open spec fn ascending(times: Seq<u64>) -> Seq<u64> {
    times.sort_by(by_value())
}

/// Comparison by value is a total order.
pub proof fn lemma_by_value_is_total()
    ensures
        total_ordering(by_value()),
{
    let leq = by_value();
    assert forall|a: u64, b: u64| #[trigger] leq(a, b) <==> a <= b by {}
}

/// The ascending arrangement of a sample is sorted and holds exactly the
/// values of the sample, each as often as the sample does.
pub proof fn lemma_ascending_is_sorted_permutation(times: Seq<u64>)
    ensures
        is_ascending(ascending(times)),
        ascending(times).to_multiset() == times.to_multiset(),
        ascending(times).len() == times.len(),
{
    broadcast use group_to_multiset_ensures;

    lemma_by_value_is_total();
    times.lemma_sort_by_ensures(by_value());
    let sorted = ascending(times);
    assert(sorted.to_multiset().len() == sorted.len());
    assert(times.to_multiset().len() == times.len());
    assert(sorted_by(sorted, by_value()));
    assert forall|i: int, j: int| 0 <= i < j < sorted.len() implies sorted[i] <= sorted[j] by {
        assert(by_value()(sorted[i], sorted[j]));
    }
}

/// A sorted sequence that holds the same values as `times` is the ascending
/// arrangement of `times`.
pub proof fn lemma_ascending_is_unique(sorted: Seq<u64>, times: Seq<u64>)
    requires
        is_ascending(sorted),
        sorted.to_multiset() == times.to_multiset(),
    ensures
        sorted == ascending(times),
{
    lemma_by_value_is_total();
    lemma_ascending_is_sorted_permutation(times);
    let leq = by_value();
    let target = ascending(times);
    assert(sorted_by(sorted, leq)) by {
        assert forall|i: int, j: int| 0 <= i < j < sorted.len() implies #[trigger] leq(
            sorted[i],
            sorted[j],
        ) by {}
    }
    assert(sorted_by(target, leq)) by {
        assert forall|i: int, j: int| 0 <= i < j < target.len() implies #[trigger] leq(
            target[i],
            target[j],
        ) by {}
    }
    lemma_sorted_unique(sorted, target, leq);
}

/// Rearranging a sample does not change its ascending arrangement.
pub proof fn lemma_ascending_ignores_order(a: Seq<u64>, b: Seq<u64>)
    requires
        a.to_multiset() == b.to_multiset(),
    ensures
        ascending(a) == ascending(b),
{
    lemma_ascending_is_sorted_permutation(a);
    lemma_ascending_is_unique(ascending(a), b);
}

/// Appending `x` to a merged run and to either of the two runs it was merged
/// from keeps the merged run a union of the two.
proof fn lemma_push_joins_multiset(merged: Seq<u64>, left: Seq<u64>, right: Seq<u64>, x: u64)
    requires
        merged.to_multiset() == left.to_multiset().add(right.to_multiset()),
    ensures
        merged.push(x).to_multiset() == left.push(x).to_multiset().add(right.to_multiset()),
        merged.push(x).to_multiset() == left.to_multiset().add(right.push(x).to_multiset()),
{
    broadcast use {group_to_multiset_ensures, group_multiset_axioms};

    assert(merged.push(x).to_multiset() =~= merged.to_multiset().insert(x));
    assert(left.push(x).to_multiset() =~= left.to_multiset().insert(x));
    assert(right.push(x).to_multiset() =~= right.to_multiset().insert(x));
    assert(merged.to_multiset().insert(x) =~= left.to_multiset().insert(x).add(
        right.to_multiset(),
    ));
    assert(merged.to_multiset().insert(x) =~= left.to_multiset().add(
        right.to_multiset().insert(x),
    ));
}

/// Merges two sorted runs into one.
fn merge(left: &Vec<u64>, right: &Vec<u64>) -> (merged: Vec<u64>)
    requires
        is_ascending(left@),
        is_ascending(right@),
        left.len() + right.len() <= usize::MAX,
    ensures
        is_ascending(merged@),
        merged@.to_multiset() == left@.to_multiset().add(right@.to_multiset()),
        merged.len() == left.len() + right.len(),
{
    broadcast use {group_to_multiset_ensures, group_multiset_axioms};

    let mut merged: Vec<u64> = Vec::new();
    let mut i: usize = 0;
    let mut j: usize = 0;
    assert(left@.take(0) =~= Seq::<u64>::empty());
    assert(right@.take(0) =~= Seq::<u64>::empty());
    assert(merged@.to_multiset() =~= left@.take(0).to_multiset().add(right@.take(0).to_multiset()));
    while i < left.len() || j < right.len()
        invariant
            i <= left.len(),
            j <= right.len(),
            merged.len() == i + j,
            left.len() + right.len() <= usize::MAX,
            is_ascending(left@),
            is_ascending(right@),
            is_ascending(merged@),
            merged@.to_multiset() == left@.take(i as int).to_multiset().add(
                right@.take(j as int).to_multiset(),
            ),
            forall|k: int| 0 <= k < merged.len() && i < left.len() ==> merged[k] <= left[i as int],
            forall|k: int| 0 <= k < merged.len() && j < right.len() ==> merged[k] <= right[j as int],
        decreases left.len() - i + (right.len() - j),
    {
        let ghost before = merged@;
        let take_left = if j >= right.len() {
            true
        } else if i >= left.len() {
            false
        } else {
            left[i] <= right[j]
        };
        if take_left {
            let x = left[i];
            merged.push(x);
            proof {
                lemma_push_joins_multiset(before, left@.take(i as int), right@.take(j as int), x);
                assert(left@.take(i + 1) =~= left@.take(i as int).push(x));
                assert(merged@ =~= before.push(x));
            }
            i += 1;
        } else {
            let x = right[j];
            merged.push(x);
            proof {
                lemma_push_joins_multiset(before, left@.take(i as int), right@.take(j as int), x);
                assert(right@.take(j + 1) =~= right@.take(j as int).push(x));
                assert(merged@ =~= before.push(x));
            }
            j += 1;
        }
    }
    assert(left@.take(i as int) =~= left@);
    assert(right@.take(j as int) =~= right@);
    merged
}

/// Sorts the part of `times` from `lo` up to `hi`.
fn sort_range(times: &Vec<u64>, lo: usize, hi: usize) -> (sorted: Vec<u64>)
    requires
        lo <= hi <= times.len(),
    ensures
        is_ascending(sorted@),
        sorted@.to_multiset() == times@.subrange(lo as int, hi as int).to_multiset(),
        sorted.len() == hi - lo,
    decreases hi - lo,
{
    broadcast use group_to_multiset_ensures;

    let mut sorted: Vec<u64> = Vec::new();
    if hi - lo == 0 {
        assert(times@.subrange(lo as int, hi as int) =~= sorted@);
        sorted
    } else if hi - lo == 1 {
        sorted.push(times[lo]);
        assert(times@.subrange(lo as int, hi as int) =~= sorted@);
        sorted
    } else {
        let mid: usize = lo + (hi - lo) / 2;
        let left = sort_range(times, lo, mid);
        let right = sort_range(times, mid, hi);
        proof {
            let whole = times@.subrange(lo as int, hi as int);
            let first = times@.subrange(lo as int, mid as int);
            let second = times@.subrange(mid as int, hi as int);
            assert(whole =~= first + second);
            lemma_multiset_commutative(first, second);
        }
        merge(&left, &right)
    }
}

/// Returns the values of `times` in ascending order.
pub fn sort_ascending(times: &Vec<u64>) -> (sorted: Vec<u64>)
    ensures
        sorted@ == ascending(times@),
        sorted.len() == times.len(),
{
    let sorted = sort_range(times, 0, times.len());
    proof {
        assert(times@.subrange(0, times.len() as int) =~= times@);
        lemma_ascending_is_unique(sorted@, times@);
    }
    sorted
}

} // verus!
