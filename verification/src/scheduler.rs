//! Fan-out over the hosts of a batch: one task per host, one result per task,
//! whatever becomes of the task.

use crate::probe::HostResult;
use crate::runner::{HostRunner, RunnerState};
use crate::stats::{non_responsive, responsive_times, Statistics};
use vstd::prelude::*;

verus! {

/// The work to do for one host of the batch.
pub struct HostTask {
    /// The host as it was given, used as it is for resolution and in
    /// diagnostics.
    pub host: String,
    /// The probing policy for this host.
    pub runner: HostRunner,
}

/// How the task of one host ended.
#[derive(Debug, Clone, Copy, PartialEq, Eq)]
pub enum TaskOutcome {
    /// The task ran to its end and returned the host's result.
    Completed(HostResult),
    /// The task ended abnormally and returned nothing.
    Crashed,
}

/// The result that stands for a task: its own if it completed, that of a host
/// which did not answer if it crashed.
pub open spec fn settled(outcome: TaskOutcome) -> HostResult {
    match outcome {
        TaskOutcome::Completed(result) => result,
        TaskOutcome::Crashed => HostResult { best_time_ns: None },
    }
}

/// The results that stand for the tasks of a batch, one each, in order.
pub open spec fn collected(outcomes: Seq<TaskOutcome>) -> Seq<HostResult> {
    outcomes.map_values(|outcome: TaskOutcome| settled(outcome))
}

/// Leaving a host that did not answer out of a batch changes neither the best
/// times of the batch nor their order, and lowers the non-responsive count by
/// one.
pub proof fn lemma_silent_host_adds_no_time(results: Seq<HostResult>, i: int)
    requires
        0 <= i < results.len(),
        results[i].best_time_ns is None,
    ensures
        responsive_times(results) == responsive_times(results.remove(i)),
        non_responsive(results) == non_responsive(results.remove(i)) + 1,
    decreases results.len(),
{
    if i == results.len() - 1 {
        assert(results.remove(i) =~= results.drop_last());
    } else {
        lemma_silent_host_adds_no_time(results.drop_last(), i);
        assert(results.remove(i).drop_last() =~= results.drop_last().remove(i));
        assert(results.remove(i).last() == results.last());
    }
}

/// A task that crashed does not keep the others from being counted: the
/// latency figures of the batch are those of the remaining hosts, and the
/// crashed host counts as one more host that did not answer.
pub proof fn lemma_crash_is_isolated(
    outcomes: Seq<TaskOutcome>,
    i: int,
    with_crash: Statistics,
    without: Statistics,
    pings_per_host: usize,
    timeout_ns: u64,
)
    requires
        0 <= i < outcomes.len(),
        outcomes[i] is Crashed,
        with_crash.summarizes(collected(outcomes), pings_per_host, timeout_ns),
        without.summarizes(collected(outcomes.remove(i)), pings_per_host, timeout_ns),
    ensures
        with_crash.avg_ns == without.avg_ns,
        with_crash.median_ns == without.median_ns,
        with_crash.p95_ns == without.p95_ns,
        with_crash.p99_ns == without.p99_ns,
        with_crash.max_ns == without.max_ns,
        with_crash.total_hosts == without.total_hosts + 1,
        with_crash.non_responsive_nodes == without.non_responsive_nodes + 1,
{
    assert(collected(outcomes).remove(i) =~= collected(outcomes.remove(i)));
    lemma_silent_host_adds_no_time(collected(outcomes), i);
}

/// Plans the batch: one task per host, in order, each with a runner of its
/// own that has not begun.
pub fn plan_tasks(hosts: &[String], count: usize, timeout_ns: u64) -> (tasks: Vec<HostTask>)
    ensures
        tasks.len() == hosts.len(),
        forall|i: int|
            0 <= i < tasks.len() ==> {
                &&& (#[trigger] tasks[i]).host@ == hosts[i]@
                &&& tasks[i].runner@ == RunnerState::start(
                    count,
                    timeout_ns,
                    tasks[i].runner@.identifier,
                )
            },
{
    let mut tasks: Vec<HostTask> = Vec::new();
    let mut i: usize = 0;
    while i < hosts.len()
        invariant
            i <= hosts.len(),
            tasks.len() == i,
            forall|k: int|
                0 <= k < tasks.len() ==> {
                    &&& (#[trigger] tasks[k]).host@ == hosts[k]@
                    &&& tasks[k].runner@ == RunnerState::start(
                        count,
                        timeout_ns,
                        tasks[k].runner@.identifier,
                    )
                },
        decreases hosts.len() - i,
    {
        let task = HostTask { host: hosts[i].clone(), runner: HostRunner::new(count, timeout_ns) };
        tasks.push(task);
        i += 1;
    }
    tasks
}

/// Collects the results of a batch: one per task, in order. A task that
/// crashed is counted as a host that did not answer; no host is dropped.
pub fn collect_results(outcomes: &[TaskOutcome]) -> (results: Vec<HostResult>)
    ensures
        results@ == collected(outcomes@),
        results.len() == outcomes.len(),
{
    let mut results: Vec<HostResult> = Vec::new();
    let mut i: usize = 0;
    while i < outcomes.len()
        invariant
            i <= outcomes.len(),
            results@ == collected(outcomes@.take(i as int)),
        decreases outcomes.len() - i,
    {
        let result = match outcomes[i] {
            TaskOutcome::Completed(result) => result,
            TaskOutcome::Crashed => HostResult::silent(),
        };
        results.push(result);
        proof {
            assert(collected(outcomes@.take(i + 1)) =~= collected(outcomes@.take(i as int)).push(
                settled(outcomes@[i as int]),
            ));
        }
        i += 1;
    }
    proof {
        assert(outcomes@.take(i as int) =~= outcomes@);
    }
    results
}

} // verus!
