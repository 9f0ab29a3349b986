use rollping::probe::{HostResult, ProbeOutcome};
use rollping::runner::{Action, Event, HostRunner};

const SECOND: u64 = 1_000_000_000;

fn probe(identifier: u16, sequence: u16) -> Action {
    Action::Probe { identifier, sequence, timeout_ns: SECOND }
}

#[test]
fn a_run_resolves_connects_and_probes_in_sequence() {
    let mut runner = HostRunner::with_identifier(3, SECOND, 77);
    assert_eq!(runner.pending(), Action::Resolve);
    assert_eq!(runner.step(Event::Resolved), Action::Connect);
    assert_eq!(runner.step(Event::ClientReady), probe(77, 0));
    assert_eq!(runner.attempts_made(), 0);
    assert_eq!(runner.step(Event::Attempt(ProbeOutcome::Succeeded(12))), probe(77, 1));
    assert_eq!(runner.step(Event::Attempt(ProbeOutcome::Succeeded(9))), probe(77, 2));
    assert_eq!(runner.attempts_made(), 2);
    assert!(!runner.is_finished());
    assert_eq!(runner.result(), None);
    assert_eq!(
        runner.step(Event::Attempt(ProbeOutcome::Succeeded(15))),
        Action::Finish(HostResult { best_time_ns: Some(9) })
    );
    assert!(runner.is_finished());
    assert_eq!(runner.attempts_made(), 3);
    assert_eq!(runner.result(), Some(HostResult { best_time_ns: Some(9) }));
}

#[test]
fn a_failed_attempt_does_not_end_the_run() {
    let mut runner = HostRunner::with_identifier(3, SECOND, 1);
    runner.step(Event::Resolved);
    runner.step(Event::ClientReady);
    assert_eq!(runner.step(Event::Attempt(ProbeOutcome::Failed)), probe(1, 1));
    assert_eq!(runner.step(Event::Attempt(ProbeOutcome::TimedOut)), probe(1, 2));
    assert_eq!(
        runner.step(Event::Attempt(ProbeOutcome::Succeeded(30))),
        Action::Finish(HostResult { best_time_ns: Some(30) })
    );
}

#[test]
fn a_host_that_never_answers_is_silent() {
    let mut runner = HostRunner::with_identifier(2, SECOND, 1);
    runner.step(Event::Resolved);
    runner.step(Event::ClientReady);
    runner.step(Event::Attempt(ProbeOutcome::TimedOut));
    assert_eq!(
        runner.step(Event::Attempt(ProbeOutcome::Failed)),
        Action::Finish(HostResult { best_time_ns: None })
    );
}

#[test]
fn failed_resolution_ends_the_run_without_an_attempt() {
    let mut runner = HostRunner::with_identifier(3, SECOND, 1);
    assert_eq!(
        runner.step(Event::ResolutionFailed),
        Action::Finish(HostResult { best_time_ns: None })
    );
    assert_eq!(runner.attempts_made(), 0);
    assert!(runner.is_finished());
}

#[test]
fn failed_client_ends_the_run_without_an_attempt() {
    let mut runner = HostRunner::with_identifier(3, SECOND, 1);
    assert_eq!(runner.step(Event::Resolved), Action::Connect);
    assert_eq!(
        runner.step(Event::ClientFailed),
        Action::Finish(HostResult { best_time_ns: None })
    );
    assert_eq!(runner.attempts_made(), 0);
}

#[test]
fn a_run_of_no_attempts_ends_after_setup() {
    let mut runner = HostRunner::with_identifier(0, SECOND, 1);
    assert_eq!(runner.step(Event::Resolved), Action::Connect);
    assert_eq!(
        runner.step(Event::ClientReady),
        Action::Finish(HostResult { best_time_ns: None })
    );
}

#[test]
fn a_finished_run_stays_finished() {
    let mut runner = HostRunner::with_identifier(1, SECOND, 1);
    runner.step(Event::Resolved);
    runner.step(Event::ClientReady);
    let done = Action::Finish(HostResult { best_time_ns: Some(5) });
    assert_eq!(runner.step(Event::Attempt(ProbeOutcome::Succeeded(5))), done);
    assert_eq!(runner.step(Event::Attempt(ProbeOutcome::Succeeded(1))), done);
    assert_eq!(runner.step(Event::Resolved), done);
    assert_eq!(runner.step(Event::ClientFailed), done);
    assert_eq!(runner.pending(), done);
    assert_eq!(runner.attempts_made(), 1);
}

#[test]
fn an_event_out_of_turn_counts_as_a_failure() {
    let mut runner = HostRunner::with_identifier(2, SECOND, 1);
    assert_eq!(
        runner.step(Event::ClientReady),
        Action::Finish(HostResult { best_time_ns: None })
    );

    let mut runner = HostRunner::with_identifier(2, SECOND, 1);
    runner.step(Event::Resolved);
    assert_eq!(
        runner.step(Event::Attempt(ProbeOutcome::Succeeded(3))),
        Action::Finish(HostResult { best_time_ns: None })
    );

    let mut runner = HostRunner::with_identifier(2, SECOND, 1);
    runner.step(Event::Resolved);
    runner.step(Event::ClientReady);
    assert_eq!(runner.step(Event::Resolved), probe(1, 1));
    assert_eq!(
        runner.step(Event::Attempt(ProbeOutcome::Succeeded(3))),
        Action::Finish(HostResult { best_time_ns: Some(3) })
    );
}

#[test]
fn sequence_numbers_wrap_after_sixteen_bits() {
    let mut runner = HostRunner::with_identifier(65_538, SECOND, 9);
    runner.step(Event::Resolved);
    let mut action = runner.step(Event::ClientReady);
    for attempt in 0..65_538usize {
        assert_eq!(action, probe(9, (attempt % 65_536) as u16));
        action = runner.step(Event::Attempt(ProbeOutcome::TimedOut));
    }
    assert_eq!(action, Action::Finish(HostResult { best_time_ns: None }));
    assert_eq!(runner.attempts_made(), 65_538);
}

#[test]
fn the_timeout_is_handed_to_every_probe() {
    let mut runner = HostRunner::with_identifier(2, 250_000_000, 3);
    runner.step(Event::Resolved);
    assert_eq!(
        runner.step(Event::ClientReady),
        Action::Probe { identifier: 3, sequence: 0, timeout_ns: 250_000_000 }
    );
    assert_eq!(
        runner.step(Event::Attempt(ProbeOutcome::Failed)),
        Action::Probe { identifier: 3, sequence: 1, timeout_ns: 250_000_000 }
    );
}

#[test]
fn a_new_runner_keeps_one_identifier_for_the_run() {
    let mut runner = HostRunner::new(3, SECOND);
    let identifier = runner.identifier();
    assert_eq!(runner.pending(), Action::Resolve);
    runner.step(Event::Resolved);
    assert_eq!(runner.step(Event::ClientReady), probe(identifier, 0));
    assert_eq!(runner.step(Event::Attempt(ProbeOutcome::TimedOut)), probe(identifier, 1));
    assert_eq!(runner.step(Event::Attempt(ProbeOutcome::TimedOut)), probe(identifier, 2));
    assert_eq!(runner.identifier(), identifier);
}

#[test]
fn new_runners_draw_their_identifiers_at_random() {
    let mut seen = Vec::new();
    for _ in 0..64 {
        let identifier = HostRunner::new(1, SECOND).identifier();
        if !seen.contains(&identifier) {
            seen.push(identifier);
        }
    }
    assert!(seen.len() > 1);
}
