use rollping::hosts::hosts_from_lines;
use rollping::probe::{HostResult, ProbeOutcome};
use rollping::runner::{Action, Event};
use rollping::scheduler::{collect_results, plan_tasks, HostTask, TaskOutcome};
use rollping::stats::calculate_statistics;

const MS: u64 = 1_000_000;
const SECOND: u64 = 1_000_000_000;

fn names(text: &[&str]) -> Vec<String> {
    text.iter().map(|line| line.to_string()).collect()
}

/// Runs a task against a host whose behaviour is given: whether its name
/// resolves, and how each attempt ends.
fn run(mut task: HostTask, resolves: bool, attempts: &[ProbeOutcome]) -> HostResult {
    let identifier = task.runner.identifier();
    let mut action = task.runner.pending();
    let mut made = 0;
    loop {
        let event = match action {
            Action::Resolve => {
                if resolves {
                    Event::Resolved
                } else {
                    Event::ResolutionFailed
                }
            }
            Action::Connect => Event::ClientReady,
            Action::Probe { identifier: carried, sequence, timeout_ns } => {
                assert_eq!(carried, identifier);
                assert_eq!(sequence as usize, made);
                assert_eq!(timeout_ns, SECOND);
                made += 1;
                Event::Attempt(attempts[made - 1])
            }
            Action::Finish(result) => return result,
        };
        action = task.runner.step(event);
    }
}

#[test]
fn one_task_is_planned_per_host() {
    let hosts = names(&["10.0.0.1", "unreachable.invalid", "10.0.0.2", "10.0.0.1"]);
    let tasks = plan_tasks(&hosts, 3, SECOND);
    assert_eq!(tasks.len(), 4);
    for (task, host) in tasks.iter().zip(hosts.iter()) {
        assert_eq!(&task.host, host);
        assert_eq!(task.runner.pending(), Action::Resolve);
        assert_eq!(task.runner.attempts_made(), 0);
        assert!(!task.runner.is_finished());
    }
    assert_eq!(plan_tasks(&[], 3, SECOND).len(), 0);
}

#[test]
fn every_task_gets_a_result() {
    let outcomes = [
        TaskOutcome::Completed(HostResult { best_time_ns: Some(4) }),
        TaskOutcome::Crashed,
        TaskOutcome::Completed(HostResult { best_time_ns: None }),
        TaskOutcome::Completed(HostResult { best_time_ns: Some(2) }),
    ];
    assert_eq!(
        collect_results(&outcomes),
        vec![
            HostResult { best_time_ns: Some(4) },
            HostResult { best_time_ns: None },
            HostResult { best_time_ns: None },
            HostResult { best_time_ns: Some(2) },
        ]
    );
    assert_eq!(collect_results(&[]), Vec::<HostResult>::new());
}

#[test]
fn a_crashed_task_does_not_disturb_the_others() {
    let remaining = [
        TaskOutcome::Completed(HostResult { best_time_ns: Some(40 * MS) }),
        TaskOutcome::Completed(HostResult { best_time_ns: Some(10 * MS) }),
        TaskOutcome::Completed(HostResult { best_time_ns: None }),
        TaskOutcome::Completed(HostResult { best_time_ns: Some(20 * MS) }),
    ];
    let expected = calculate_statistics(&collect_results(&remaining), 3, SECOND);
    for position in 0..=remaining.len() {
        let mut outcomes = remaining.to_vec();
        outcomes.insert(position, TaskOutcome::Crashed);
        let stats = calculate_statistics(&collect_results(&outcomes), 3, SECOND);
        assert_eq!(stats.avg_ns, expected.avg_ns);
        assert_eq!(stats.median_ns, expected.median_ns);
        assert_eq!(stats.p95_ns, expected.p95_ns);
        assert_eq!(stats.p99_ns, expected.p99_ns);
        assert_eq!(stats.max_ns, expected.max_ns);
        assert_eq!(stats.total_hosts, 5);
        assert_eq!(stats.non_responsive_nodes, 2);
    }
}

#[test]
fn a_batch_of_crashes_is_a_batch_of_silent_hosts() {
    let outcomes = [TaskOutcome::Crashed, TaskOutcome::Crashed];
    let stats = calculate_statistics(&collect_results(&outcomes), 1, SECOND);
    assert_eq!(stats.total_hosts, 2);
    assert_eq!(stats.non_responsive_nodes, 2);
    assert_eq!(stats.max_ns, 0);
    assert_eq!(stats.avg_ns, 0);
}

#[test]
fn three_hosts_end_to_end() {
    let hosts = hosts_from_lines(&names(&["10.0.0.1", "unreachable.invalid", "10.0.0.2"]));
    let mut tasks = plan_tasks(&hosts, 3, SECOND);
    assert_eq!(tasks.len(), 3);
    let third = tasks.pop().unwrap();
    let second = tasks.pop().unwrap();
    let first = tasks.pop().unwrap();
    assert_eq!(first.host, "10.0.0.1");
    assert_eq!(second.host, "unreachable.invalid");
    assert_eq!(third.host, "10.0.0.2");

    let outcomes = [
        TaskOutcome::Completed(run(
            first,
            true,
            &[
                ProbeOutcome::Succeeded(12 * MS),
                ProbeOutcome::Succeeded(9 * MS),
                ProbeOutcome::Succeeded(15 * MS),
            ],
        )),
        TaskOutcome::Completed(run(second, false, &[])),
        TaskOutcome::Completed(run(
            third,
            true,
            &[ProbeOutcome::Succeeded(30 * MS), ProbeOutcome::TimedOut, ProbeOutcome::TimedOut],
        )),
    ];
    let results = collect_results(&outcomes);
    assert_eq!(
        results,
        vec![
            HostResult { best_time_ns: Some(9 * MS) },
            HostResult { best_time_ns: None },
            HostResult { best_time_ns: Some(30 * MS) },
        ]
    );

    let stats = calculate_statistics(&results, 3, SECOND);
    assert_eq!(stats.total_hosts, 3);
    assert_eq!(stats.non_responsive_nodes, 1);
    assert_eq!(stats.avg_ns, 19_500_000);
    assert_eq!(stats.median_ns, 30 * MS);
    assert_eq!(stats.max_ns, 30 * MS);
    assert_eq!(stats.pings_per_host, 3);
    assert_eq!(stats.timeout_ns, SECOND);
}

#[test]
fn empty_input_end_to_end() {
    let hosts = hosts_from_lines(&[]);
    let tasks = plan_tasks(&hosts, 3, SECOND);
    assert!(tasks.is_empty());
    let stats = calculate_statistics(&collect_results(&[]), 3, SECOND);
    assert_eq!(stats.total_hosts, 0);
    assert_eq!(stats.non_responsive_nodes, 0);
    assert_eq!(stats.avg_ns, 0);
    assert_eq!(stats.median_ns, 0);
    assert_eq!(stats.p95_ns, 0);
    assert_eq!(stats.p99_ns, 0);
    assert_eq!(stats.max_ns, 0);
}
