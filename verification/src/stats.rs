//! Latency statistics over the best round-trip times of a batch of hosts:
//! mean, nearest-rank percentiles and maximum over the hosts that answered,
//! and a count of those that did not.

use crate::order::{
    ascending, is_ascending, lemma_ascending_ignores_order, lemma_ascending_is_sorted_permutation,
    sort_ascending,
};
use crate::probe::HostResult;
use vstd::prelude::*;

verus! {

/// The aggregate over the results of one run.
///
/// The five latency figures are in nanoseconds, are taken over the hosts
/// that answered, and are all zero when none did.
#[derive(Debug, Clone, Copy, PartialEq, Eq)]
pub struct Statistics {
    /// Mean best time, rounded down to a whole nanosecond.
    pub avg_ns: u64,
    /// Median best time.
    pub median_ns: u64,
    /// 95th percentile of the best times.
    pub p95_ns: u64,
    /// 99th percentile of the best times.
    pub p99_ns: u64,
    /// Longest best time.
    pub max_ns: u64,
    /// Number of hosts without a single successful attempt.
    pub non_responsive_nodes: usize,
    /// Number of hosts probed.
    pub total_hosts: usize,
    /// Number of attempts made per host.
    pub pings_per_host: usize,
    /// Wait allowed per attempt, in nanoseconds.
    pub timeout_ns: u64,
}

/// The best times of the hosts that answered, in the order of `results`.
pub open spec fn responsive_times(results: Seq<HostResult>) -> Seq<u64> {
    results.filter_map(|result: HostResult| result.best_time_ns)
}

/// The number of hosts in `results` that did not answer.
pub open spec fn non_responsive(results: Seq<HostResult>) -> nat
    decreases results.len(),
{
    if results.len() == 0 {
        0
    } else {
        let earlier = non_responsive(results.drop_last());
        if results.last().best_time_ns is None {
            earlier + 1
        } else {
            earlier
        }
    }
}

/// No host in `results` answered.
pub open spec fn all_silent(results: Seq<HostResult>) -> bool {
    forall|i: int| 0 <= i < results.len() ==> results[i].best_time_ns is None
}

/// The sum of `times`.
pub open spec fn total(times: Seq<u64>) -> nat
    decreases times.len(),
{
    if times.len() == 0 {
        0
    } else {
        total(times.drop_last()) + times.last() as nat
    }
}

/// The arithmetic mean of `times` rounded down; zero for an empty sample.
pub open spec fn mean(times: Seq<u64>) -> nat {
    if times.len() == 0 {
        0
    } else {
        total(times) / times.len()
    }
}

/// The rank selected for percentile `p` in a sorted sample of `n` values:
/// `p / 100 * (n - 1)` rounded to the nearest integer, halves upward, and
/// never beyond the last rank.
pub open spec fn nearest_rank(n: nat, p: nat) -> nat {
    if n == 0 {
        0
    } else {
        let last = (n - 1) as nat;
        let rounded = (p * last + 50) / 100;
        if rounded <= last {
            rounded
        } else {
            last
        }
    }
}

/// The nearest-rank percentile `p` of a sorted sample; zero for an empty one.
pub open spec fn percentile_of(sorted: Seq<u64>, p: nat) -> u64 {
    if sorted.len() == 0 {
        0
    } else {
        sorted[nearest_rank(sorted.len(), p) as int]
    }
}

/// The last value of a sorted sample; zero for an empty one.
pub open spec fn greatest(sorted: Seq<u64>) -> u64 {
    if sorted.len() == 0 {
        0
    } else {
        sorted.last()
    }
}

impl Statistics {
    /// `self` is the aggregate of `results` for a run configured with
    /// `pings_per_host` attempts and a wait of `timeout_ns` per attempt.
    pub open spec fn summarizes(
        self,
        results: Seq<HostResult>,
        pings_per_host: usize,
        timeout_ns: u64,
    ) -> bool {
        let times = responsive_times(results);
        let sorted = ascending(times);
        &&& self.total_hosts == results.len()
        &&& self.non_responsive_nodes == non_responsive(results)
        &&& self.pings_per_host == pings_per_host
        &&& self.timeout_ns == timeout_ns
        &&& self.avg_ns == mean(times)
        &&& self.median_ns == percentile_of(sorted, 50)
        &&& self.p95_ns == percentile_of(sorted, 95)
        &&& self.p99_ns == percentile_of(sorted, 99)
        &&& self.max_ns == greatest(sorted)
    }
}

/// Every host either answered or did not: the two groups add up to the batch.
pub proof fn lemma_hosts_partition(results: Seq<HostResult>)
    ensures
        non_responsive(results) + responsive_times(results).len() == results.len(),
        non_responsive(results) <= results.len(),
    decreases results.len(),
{
    if results.len() > 0 {
        lemma_hosts_partition(results.drop_last());
    }
}

/// When no host answered there are no best times, and every host counts as
/// non-responsive; and only then.
pub proof fn lemma_all_silent(results: Seq<HostResult>)
    ensures
        all_silent(results) <==> responsive_times(results).len() == 0,
        all_silent(results) <==> non_responsive(results) == results.len(),
    decreases results.len(),
{
    lemma_hosts_partition(results);
    if results.len() > 0 {
        let earlier = results.drop_last();
        lemma_all_silent(earlier);
        lemma_hosts_partition(earlier);
        if all_silent(results) {
            assert(results.last() == results[results.len() - 1]);
            assert forall|i: int| 0 <= i < earlier.len() implies earlier[i].best_time_ns is None by {
                assert(earlier[i] == results[i]);
            }
        }
        if all_silent(earlier) && results.last().best_time_ns is None {
            assert forall|i: int| 0 <= i < results.len() implies results[i].best_time_ns is None by {
                if i < earlier.len() {
                    assert(earlier[i] == results[i]);
                }
            }
        }
    }
}

/// The sum of a sample is at most its size times its largest possible value.
pub proof fn lemma_total_is_bounded(times: Seq<u64>)
    ensures
        total(times) <= times.len() * u64::MAX,
    decreases times.len(),
{
    if times.len() > 0 {
        lemma_total_is_bounded(times.drop_last());
    }
}

/// The mean of a sample lies between any lower and upper bound of its values.
pub proof fn lemma_mean_is_between(times: Seq<u64>, low: u64, high: u64)
    requires
        times.len() > 0,
        forall|i: int| 0 <= i < times.len() ==> low <= #[trigger] times[i] && times[i] <= high,
    ensures
        low <= mean(times) <= high,
{
    lemma_total_is_between(times, low, high);
    let n = times.len() as int;
    let sum = total(times) as int;
    assert(low <= sum / n <= high) by (nonlinear_arith)
        requires
            n > 0,
            n * low <= sum <= n * high,
    ;
}

proof fn lemma_total_is_between(times: Seq<u64>, low: u64, high: u64)
    requires
        forall|i: int| 0 <= i < times.len() ==> low <= #[trigger] times[i] && times[i] <= high,
    ensures
        times.len() * low <= total(times) <= times.len() * high,
    decreases times.len(),
{
    if times.len() > 0 {
        let earlier = times.drop_last();
        assert forall|i: int| 0 <= i < earlier.len() implies low <= #[trigger] earlier[i]
            && earlier[i] <= high by {
            assert(earlier[i] == times[i]);
        }
        lemma_total_is_between(earlier, low, high);
        assert(low <= times[times.len() - 1] <= high);
        let n = earlier.len() as int;
        assert((n + 1) * low == n * low + low) by (nonlinear_arith);
        assert((n + 1) * high == n * high + high) by (nonlinear_arith);
    }
}

/// The nearest rank is the integer nearest to `p / 100 * (n - 1)`, with
/// halves going up, wherever that is a rank of the sample.
pub proof fn lemma_nearest_rank_rounds(n: nat, p: nat)
    requires
        n > 0,
    ensures
        nearest_rank(n, p) < n,
        p <= 100 ==> 100 * nearest_rank(n, p) - 50 <= p * (n - 1) < 100 * nearest_rank(n, p) + 50,
        p > 100 ==> nearest_rank(n, p) == n - 1 || 100 * nearest_rank(n, p) - 50 <= p * (n - 1)
            < 100 * nearest_rank(n, p) + 50,
{
    let last = (n - 1) as nat;
    let scaled = p * last;
    if p <= 100 {
        assert(scaled <= 100 * last) by (nonlinear_arith)
            requires
                scaled == p * last,
                p <= 100,
        ;
    }
}

/// A higher percentile never selects a lower rank.
pub proof fn lemma_nearest_rank_is_monotone(n: nat, p: nat, q: nat)
    requires
        p <= q,
    ensures
        nearest_rank(n, p) <= nearest_rank(n, q),
{
    if n > 0 {
        let last = (n - 1) as nat;
        assert(p * last <= q * last) by (nonlinear_arith)
            requires
                p <= q,
        ;
    }
}

/// In a sorted sample a higher percentile is never a smaller value, and none
/// exceeds the greatest value.
pub proof fn lemma_percentiles_are_ordered(sorted: Seq<u64>, p: nat, q: nat)
    requires
        is_ascending(sorted),
        p <= q,
    ensures
        percentile_of(sorted, p) <= percentile_of(sorted, q) <= greatest(sorted),
{
    if sorted.len() > 0 {
        lemma_nearest_rank_is_monotone(sorted.len(), p, q);
        lemma_nearest_rank_rounds(sorted.len(), p);
        lemma_nearest_rank_rounds(sorted.len(), q);
    }
}

/// Every value of a sample lies between the first and the last value of its
/// ascending arrangement.
pub proof fn lemma_sample_is_within_extremes(times: Seq<u64>)
    requires
        times.len() > 0,
    ensures
        forall|i: int|
            0 <= i < times.len() ==> ascending(times).first() <= #[trigger] times[i] && times[i]
                <= ascending(times).last(),
{
    broadcast use vstd::seq_lib::group_to_multiset_ensures;

    lemma_ascending_is_sorted_permutation(times);
    let sorted = ascending(times);
    assert forall|i: int| 0 <= i < times.len() implies sorted.first() <= #[trigger] times[i]
        && times[i] <= sorted.last() by {
        assert(times.contains(times[i]));
        assert(times.to_multiset().count(times[i]) > 0);
        assert(sorted.contains(times[i]));
        let k = choose|k: int| 0 <= k < sorted.len() && sorted[k] == times[i];
        assert(sorted[0] <= sorted[k]);
        assert(sorted[k] <= sorted[sorted.len() - 1]);
    }
}

/// The latency figures of any aggregate are ordered:
/// median, 95th percentile, 99th percentile, maximum; and the mean does not
/// exceed the maximum either.
/// With exactly one responsive host all of them are that host's best time.
pub proof fn lemma_statistics_are_ordered(
    stats: Statistics,
    results: Seq<HostResult>,
    pings_per_host: usize,
    timeout_ns: u64,
)
    requires
        stats.summarizes(results, pings_per_host, timeout_ns),
    ensures
        stats.median_ns <= stats.p95_ns <= stats.p99_ns <= stats.max_ns,
        stats.avg_ns <= stats.max_ns,
        responsive_times(results).len() == 1 ==> {
            let only = responsive_times(results)[0];
            &&& stats.avg_ns == only
            &&& stats.median_ns == only
            &&& stats.p95_ns == only
            &&& stats.p99_ns == only
            &&& stats.max_ns == only
        },
{
    let times = responsive_times(results);
    let sorted = ascending(times);
    lemma_ascending_is_sorted_permutation(times);
    lemma_percentiles_are_ordered(sorted, 50, 95);
    lemma_percentiles_are_ordered(sorted, 95, 99);
    if times.len() > 0 {
        lemma_sample_is_within_extremes(times);
        lemma_mean_is_between(times, sorted.first(), sorted.last());
    }
    if times.len() == 1 {
        broadcast use vstd::seq_lib::group_to_multiset_ensures;

        assert(sorted.to_multiset().count(sorted[0]) > 0);
        assert(times.contains(sorted[0]));
        assert(sorted[0] == times[0]);
        assert(times.drop_last() =~= Seq::<u64>::empty());
        assert(total(times.drop_last()) == 0);
        assert(total(times) == times[0]);
    }
}

/// When every host is non-responsive, all five latency figures are zero and
/// the non-responsive count is the number of hosts.
pub proof fn lemma_silent_run_is_all_zero(
    stats: Statistics,
    results: Seq<HostResult>,
    pings_per_host: usize,
    timeout_ns: u64,
)
    requires
        stats.summarizes(results, pings_per_host, timeout_ns),
        all_silent(results),
    ensures
        stats.avg_ns == 0,
        stats.median_ns == 0,
        stats.p95_ns == 0,
        stats.p99_ns == 0,
        stats.max_ns == 0,
        stats.non_responsive_nodes == stats.total_hosts,
{
    lemma_all_silent(results);
    lemma_ascending_is_sorted_permutation(responsive_times(results));
}

/// Every host of the batch is counted once: the total is the number of
/// results, and the non-responsive hosts are among them.
pub proof fn lemma_every_host_is_counted(
    stats: Statistics,
    results: Seq<HostResult>,
    pings_per_host: usize,
    timeout_ns: u64,
)
    requires
        stats.summarizes(results, pings_per_host, timeout_ns),
    ensures
        stats.total_hosts == results.len(),
        stats.non_responsive_nodes <= stats.total_hosts,
        stats.non_responsive_nodes + responsive_times(results).len() == stats.total_hosts,
{
    lemma_hosts_partition(results);
}

/// Computes [`nearest_rank`] for a sample of `n` values.
pub fn percentile_rank(n: usize, p: u64) -> (rank: usize)
    ensures
        rank == nearest_rank(n as nat, p as nat),
        n > 0 ==> rank < n,
{
    if n == 0 {
        return 0;
    }
    let last: u128 = (n - 1) as u128;
    assert(p as u128 * last <= 0xffff_ffff_ffff_ffff * 0xffff_ffff_ffff_ffff) by (nonlinear_arith)
        requires
            p <= 0xffff_ffff_ffff_ffff,
            last <= 0xffff_ffff_ffff_ffff,
    ;
    let rounded: u128 = (p as u128 * last + 50) / 100;
    if rounded <= last {
        rounded as usize
    } else {
        n - 1
    }
}

/// The value at the nearest rank for percentile `p` in `sorted_values`, which
/// the caller has sorted in ascending order; zero for an empty sample.
pub fn percentile(sorted_values: &[u64], p: u64) -> (value: u64)
    ensures
        value == percentile_of(sorted_values@, p as nat),
{
    if sorted_values.len() == 0 {
        return 0;
    }
    let rank = percentile_rank(sorted_values.len(), p);
    sorted_values[rank]
}

/// Adds up `times`.
fn sum_of(times: &Vec<u64>) -> (sum: u128)
    ensures
        sum == total(times@),
{
    let mut sum: u128 = 0;
    let mut i: usize = 0;
    while i < times.len()
        invariant
            i <= times.len(),
            sum == total(times@.take(i as int)),
            sum <= i * u64::MAX,
        decreases times.len() - i,
    {
        proof {
            assert(times@.take(i + 1).drop_last() =~= times@.take(i as int));
            assert(times@.take(i + 1).last() == times[i as int]);
        }
        sum = sum + times[i] as u128;
        i += 1;
    }
    proof {
        assert(times@.take(i as int) =~= times@);
    }
    sum
}

/// Splits `results` into the best times of the hosts that answered and the
/// number of hosts that did not.
fn partition(results: &[HostResult]) -> (parts: (Vec<u64>, usize))
    ensures
        parts.0@ == responsive_times(results@),
        parts.1 == non_responsive(results@),
{
    let mut times: Vec<u64> = Vec::new();
    let mut silent: usize = 0;
    let mut i: usize = 0;
    while i < results.len()
        invariant
            i <= results.len(),
            times@ == responsive_times(results@.take(i as int)),
            silent == non_responsive(results@.take(i as int)),
            silent + times.len() == i,
        decreases results.len() - i,
    {
        proof {
            assert(results@.take(i + 1).drop_last() =~= results@.take(i as int));
            assert(results@.take(i + 1).last() == results[i as int]);
        }
        match results[i].best_time_ns {
            Some(time) => {
                times.push(time);
            },
            None => {
                silent += 1;
            },
        }
        i += 1;
    }
    proof {
        assert(results@.take(i as int) =~= results@);
    }
    (times, silent)
}

/// Aggregates the results of one run.
///
/// Hosts are split into those with a best time and those without. The mean,
/// the nearest-rank percentiles 50, 95 and 99 and the maximum are taken over
/// the best times in ascending order; with no responsive host all five are
/// zero. The run's configuration is carried into the aggregate unchanged.
pub fn calculate_statistics(results: &[HostResult], pings_per_host: usize, timeout_ns: u64) -> (stats:
    Statistics)
    ensures
        stats.summarizes(results@, pings_per_host, timeout_ns),
        stats.total_hosts == results@.len(),
        stats.non_responsive_nodes <= stats.total_hosts,
        stats.non_responsive_nodes + responsive_times(results@).len() == stats.total_hosts,
        stats.median_ns <= stats.p95_ns <= stats.p99_ns <= stats.max_ns,
        stats.avg_ns <= stats.max_ns,
        all_silent(results@) ==> stats.avg_ns == 0 && stats.median_ns == 0 && stats.p95_ns == 0
            && stats.p99_ns == 0 && stats.max_ns == 0 && stats.non_responsive_nodes
            == stats.total_hosts,
{
    let (times, non_responsive_nodes) = partition(results);
    let total_hosts = results.len();
    let stats = if times.len() == 0 {
        proof {
            lemma_ascending_is_sorted_permutation(times@);
        }
        Statistics {
            avg_ns: 0,
            median_ns: 0,
            p95_ns: 0,
            p99_ns: 0,
            max_ns: 0,
            non_responsive_nodes,
            total_hosts,
            pings_per_host,
            timeout_ns,
        }
    } else {
        let sum = sum_of(&times);
        let count = times.len();
        proof {
            lemma_total_is_bounded(times@);
            let n = count as int;
            let s = sum as int;
            assert(s / n <= u64::MAX) by (nonlinear_arith)
                requires
                    n > 0,
                    0 <= s <= n * u64::MAX,
            ;
        }
        let avg_ns = (sum / count as u128) as u64;
        let sorted = sort_ascending(&times);
        let median_ns = percentile(sorted.as_slice(), 50);
        let p95_ns = percentile(sorted.as_slice(), 95);
        let p99_ns = percentile(sorted.as_slice(), 99);
        let max_ns = sorted[sorted.len() - 1];
        Statistics {
            avg_ns,
            median_ns,
            p95_ns,
            p99_ns,
            max_ns,
            non_responsive_nodes,
            total_hosts,
            pings_per_host,
            timeout_ns,
        }
    };
    proof {
        lemma_every_host_is_counted(stats, results@, pings_per_host, timeout_ns);
        lemma_statistics_are_ordered(stats, results@, pings_per_host, timeout_ns);
        if all_silent(results@) {
            lemma_silent_run_is_all_zero(stats, results@, pings_per_host, timeout_ns);
        }
    }
    stats
}

/// The aggregate does not depend on the order in which the results were
/// collected: two batches that hold the same best times, each as often, and
/// equally many hosts, have the same aggregate.
pub proof fn lemma_statistics_ignore_order(
    first: Statistics,
    second: Statistics,
    a: Seq<HostResult>,
    b: Seq<HostResult>,
    pings_per_host: usize,
    timeout_ns: u64,
)
    requires
        first.summarizes(a, pings_per_host, timeout_ns),
        second.summarizes(b, pings_per_host, timeout_ns),
        a.len() == b.len(),
        responsive_times(a).to_multiset() == responsive_times(b).to_multiset(),
    ensures
        first == second,
{
    broadcast use vstd::seq_lib::group_to_multiset_ensures;

    let x = responsive_times(a);
    let y = responsive_times(b);
    lemma_ascending_ignores_order(x, y);
    lemma_hosts_partition(a);
    lemma_hosts_partition(b);
    assert(x.to_multiset().len() == x.len());
    assert(y.to_multiset().len() == y.len());
    lemma_total_ignores_order(x, y);
}

/// Rearranging a sample does not change its sum.
pub proof fn lemma_total_ignores_order(a: Seq<u64>, b: Seq<u64>)
    requires
        a.to_multiset() == b.to_multiset(),
    ensures
        total(a) == total(b),
    decreases a.len(),
{
    broadcast use vstd::seq_lib::group_to_multiset_ensures;

    assert(a.to_multiset().len() == a.len());
    assert(b.to_multiset().len() == b.len());
    if a.len() > 0 {
        let x = a.last();
        assert(a[a.len() - 1] == x);
        assert(a.contains(x));
        assert(b.to_multiset().count(x) > 0);
        assert(b.contains(x));
        let i = choose|i: int| 0 <= i < b.len() && b[i] == x;
        assert(a.drop_last() =~= a.remove(a.len() - 1));
        assert(a.drop_last().to_multiset() == a.to_multiset().remove(x));
        assert(b.remove(i).to_multiset() == b.to_multiset().remove(x));
        lemma_total_ignores_order(a.drop_last(), b.remove(i));
        lemma_total_without(b, i);
    }
}

/// Taking one value out of a sample lowers its sum by that value.
proof fn lemma_total_without(times: Seq<u64>, i: int)
    requires
        0 <= i < times.len(),
    ensures
        total(times) == total(times.remove(i)) + times[i],
    decreases times.len(),
{
    if i == times.len() - 1 {
        assert(times.remove(i) =~= times.drop_last());
    } else {
        lemma_total_without(times.drop_last(), i);
        assert(times.remove(i).drop_last() =~= times.drop_last().remove(i));
        assert(times.remove(i).last() == times.last());
    }
}

} // verus!
