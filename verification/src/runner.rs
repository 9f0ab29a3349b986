//! The probing policy for one host, as a state machine.
//!
//! A runner never performs I/O. It says what to do next ([`Action`]), the
//! caller does it and reports what happened ([`Event`]). A run goes through
//! name resolution, client construction and then the attempts, one at a
//! time; it ends with exactly one [`HostResult`].

use crate::probe::{best_time, fold_attempt, HostResult, ProbeOutcome};
use vstd::prelude::*;

verus! {

/// Where a runner stands in its run.
#[derive(Debug, Clone, Copy, PartialEq, Eq)]
pub enum Phase {
    /// Waiting for the host's name to be resolved.
    Resolving,
    /// Waiting for the probing client to be constructed.
    Connecting,
    /// Waiting for the outcome of the attempt in flight.
    Probing,
    /// The result is final.
    Finished,
}

/// What the caller reports back to a runner.
#[derive(Debug, Clone, Copy, PartialEq, Eq)]
pub enum Event {
    /// The host's name resolved to an address.
    Resolved,
    /// The host's name did not resolve.
    ResolutionFailed,
    /// The probing client is ready.
    ClientReady,
    /// The probing client could not be constructed.
    ClientFailed,
    /// The attempt in flight ended.
    Attempt(ProbeOutcome),
}

/// What a runner asks the caller to do.
#[derive(Debug, Clone, Copy, PartialEq, Eq)]
pub enum Action {
    /// Resolve the host's name.
    Resolve,
    /// Construct the probing client.
    Connect,
    /// Send one echo request and wait for its reply, no longer than
    /// `timeout_ns` nanoseconds.
    Probe { identifier: u16, sequence: u16, timeout_ns: u64 },
    /// Stop: this is the host's result.
    Finish(HostResult),
}

/// The sequence number of the attempt with the given index: the index itself
/// as long as it fits in sixteen bits, wrapping around after that.
pub open spec fn sequence_of(attempt: nat) -> u16 {
    (attempt % 0x1_0000) as u16
}

/// The state of a runner.
pub struct RunnerState {
    /// Attempts to make.
    pub count: usize,
    /// Wait allowed per attempt, in nanoseconds.
    pub timeout_ns: u64,
    /// Identifier that every request of this run carries.
    pub identifier: u16,
    /// Current phase.
    pub phase: Phase,
    /// Attempts that have ended.
    pub attempts: usize,
    /// Shortest round trip so far.
    pub best: Option<u64>,
}

impl RunnerState {
    /// The state in which every run begins.
    pub open spec fn start(count: usize, timeout_ns: u64, identifier: u16) -> RunnerState {
        RunnerState {
            count,
            timeout_ns,
            identifier,
            phase: Phase::Resolving,
            attempts: 0,
            best: None,
        }
    }

    /// The states a run can be in: no more attempts have ended than were
    /// asked for, an attempt is in flight only while some are left, and
    /// nothing has been measured before the attempts begin.
    pub open spec fn wf(self) -> bool {
        &&& self.attempts <= self.count
        &&& (self.phase is Probing ==> self.attempts < self.count)
        &&& (self.phase is Resolving || self.phase is Connecting ==> self.attempts == 0
            && self.best is None)
    }

    /// The result so far.
    pub open spec fn result(self) -> HostResult {
        HostResult { best_time_ns: self.best }
    }

    /// What the runner is waiting for in this state.
    pub open spec fn pending(self) -> Action {
        match self.phase {
            Phase::Resolving => Action::Resolve,
            Phase::Connecting => Action::Connect,
            Phase::Probing => Action::Probe {
                identifier: self.identifier,
                sequence: sequence_of(self.attempts as nat),
                timeout_ns: self.timeout_ns,
            },
            Phase::Finished => Action::Finish(self.result()),
        }
    }

    /// How an event is read while an attempt is in flight: as the outcome it
    /// carries, and as a failed attempt if it carries none.
    pub open spec fn outcome_of(event: Event) -> ProbeOutcome {
        match event {
            Event::Attempt(outcome) => outcome,
            _ => ProbeOutcome::Failed,
        }
    }

    /// The state that follows `self` on `event`.
    ///
    /// While resolving or connecting, anything but the success of that step
    /// ends the run without an attempt. While probing, every event ends the
    /// attempt in flight; only a successful outcome can lower the best time,
    /// and the run ends with the last attempt. A finished run stays as it is.
    pub open spec fn after(self, event: Event) -> RunnerState {
        match self.phase {
            Phase::Resolving => RunnerState {
                phase: if event is Resolved {
                    Phase::Connecting
                } else {
                    Phase::Finished
                },
                ..self
            },
            Phase::Connecting => RunnerState {
                phase: if event is ClientReady && self.count > 0 {
                    Phase::Probing
                } else {
                    Phase::Finished
                },
                ..self
            },
            Phase::Probing => RunnerState {
                phase: if self.attempts + 1 < self.count {
                    Phase::Probing
                } else {
                    Phase::Finished
                },
                attempts: (self.attempts + 1) as usize,
                best: fold_attempt(self.best, Self::outcome_of(event)),
                ..self
            },
            Phase::Finished => self,
        }
    }

    /// The state reached from `self` after `events`, in order.
    pub open spec fn replay(self, events: Seq<Event>) -> RunnerState
        decreases events.len(),
    {
        if events.len() == 0 {
            self
        } else {
            self.replay(events.drop_last()).after(events.last())
        }
    }

    /// The events of a run in which resolution and client construction
    /// succeed and the attempts end with `outcomes`.
    pub open spec fn probing_events(outcomes: Seq<ProbeOutcome>) -> Seq<Event> {
        seq![Event::Resolved, Event::ClientReady] + outcomes.map_values(
            |outcome: ProbeOutcome| Event::Attempt(outcome),
        )
    }
}

/// Every step leads from a state of a run to a state of a run.
pub proof fn lemma_step_preserves_wf(state: RunnerState, event: Event)
    requires
        state.wf(),
    ensures
        state.after(event).wf(),
{
}

/// A step never raises the best time, never changes the run's configuration,
/// and never takes back an attempt.
pub proof fn lemma_step_is_monotone(state: RunnerState, event: Event)
    requires
        state.wf(),
    ensures
        state.after(event).count == state.count,
        state.after(event).timeout_ns == state.timeout_ns,
        state.after(event).identifier == state.identifier,
        state.after(event).attempts >= state.attempts,
        state.best matches Some(before) ==> (state.after(event).best matches Some(after) && after
            <= before),
{
}

/// A finished run is final: no event changes its state or its result.
pub proof fn lemma_finished_is_final(state: RunnerState, events: Seq<Event>)
    requires
        state.phase is Finished,
    ensures
        state.replay(events) == state,
    decreases events.len(),
{
    if events.len() > 0 {
        lemma_finished_is_final(state, events.drop_last());
    }
}

/// Replaying events leads from a state of a run to a state of a run.
pub proof fn lemma_replay_preserves_wf(state: RunnerState, events: Seq<Event>)
    requires
        state.wf(),
    ensures
        state.replay(events).wf(),
        state.replay(events).count == state.count,
        state.replay(events).attempts <= state.count,
    decreases events.len(),
{
    if events.len() > 0 {
        lemma_replay_preserves_wf(state, events.drop_last());
    }
}

/// The number of events a run can still take in before it is finished.
pub open spec fn steps_left(state: RunnerState) -> nat {
    match state.phase {
        Phase::Resolving => state.count as nat + 2,
        Phase::Connecting => state.count as nat + 1,
        Phase::Probing => (state.count - state.attempts) as nat,
        Phase::Finished => 0,
    }
}

/// Every event brings a run that is not finished closer to its end, and
/// whatever the events are, a run is finished after two more of them than it
/// was to make attempts: the two steps of the setup and one per attempt.
pub proof fn lemma_run_ends(state: RunnerState, events: Seq<Event>)
    requires
        state.wf(),
    ensures
        steps_left(state.replay(events)) + events.len() <= steps_left(state)
            || state.replay(events).phase is Finished,
        events.len() >= steps_left(state) ==> state.replay(events).phase is Finished,
    decreases events.len(),
{
    if events.len() > 0 {
        lemma_run_ends(state, events.drop_last());
        lemma_replay_preserves_wf(state, events.drop_last());
    }
}

/// When the name does not resolve, or the client cannot be constructed, the
/// run ends at once, without an attempt and without a best time.
pub proof fn lemma_failed_setup_is_silent(count: usize, timeout_ns: u64, identifier: u16)
    ensures
        ({
            let unresolved = RunnerState::start(count, timeout_ns, identifier).after(
                Event::ResolutionFailed,
            );
            &&& unresolved.phase is Finished
            &&& unresolved.attempts == 0
            &&& unresolved.result().best_time_ns is None
        }),
        ({
            let unconnected = RunnerState::start(count, timeout_ns, identifier).after(
                Event::Resolved,
            ).after(Event::ClientFailed);
            &&& unconnected.phase is Finished
            &&& unconnected.attempts == 0
            &&& unconnected.result().best_time_ns is None
        }),
{
}

/// After a successful setup and the first `outcomes.len()` attempts of a
/// run, that many attempts have ended, the best time is the minimum of their
/// successful round trips, and the run is finished exactly when no attempt
/// is left.
pub proof fn lemma_run_folds_attempts(
    count: usize,
    timeout_ns: u64,
    identifier: u16,
    outcomes: Seq<ProbeOutcome>,
)
    requires
        outcomes.len() <= count,
    ensures
        ({
            let reached = RunnerState::start(count, timeout_ns, identifier).replay(
                RunnerState::probing_events(outcomes),
            );
            &&& reached.wf()
            &&& reached.count == count
            &&& reached.timeout_ns == timeout_ns
            &&& reached.identifier == identifier
            &&& reached.attempts == outcomes.len()
            &&& reached.best == best_time(outcomes)
            &&& (reached.phase is Finished <==> outcomes.len() == count)
            &&& (reached.phase is Probing <==> outcomes.len() < count)
        }),
    decreases outcomes.len(),
{
    let start = RunnerState::start(count, timeout_ns, identifier);
    let events = RunnerState::probing_events(outcomes);
    if outcomes.len() == 0 {
        let setup = seq![Event::Resolved, Event::ClientReady];
        assert(events =~= setup);
        assert(setup.drop_last() =~= seq![Event::Resolved]);
        assert(seq![Event::Resolved].drop_last() =~= Seq::<Event>::empty());
        assert(start.replay(Seq::<Event>::empty()) == start);
        assert(start.replay(seq![Event::Resolved]) == start.after(Event::Resolved));
        assert(start.replay(setup) == start.after(Event::Resolved).after(Event::ClientReady));
    } else {
        let earlier = outcomes.drop_last();
        lemma_run_folds_attempts(count, timeout_ns, identifier, earlier);
        assert(events.drop_last() =~= RunnerState::probing_events(earlier));
        assert(events.last() == Event::Attempt(outcomes.last()));
    }
}

/// A complete run ends with the minimum of the successful round trips of its
/// attempts as the host's result.
pub proof fn lemma_complete_run_yields_best_time(
    count: usize,
    timeout_ns: u64,
    identifier: u16,
    outcomes: Seq<ProbeOutcome>,
)
    requires
        outcomes.len() == count,
    ensures
        RunnerState::start(count, timeout_ns, identifier).replay(
            RunnerState::probing_events(outcomes),
        ).pending() == Action::Finish(HostResult { best_time_ns: best_time(outcomes) }),
{
    lemma_run_folds_attempts(count, timeout_ns, identifier, outcomes);
}

/// Within the first 65536 attempts of a run no sequence number is used twice.
pub proof fn lemma_sequences_are_distinct(first: nat, second: nat)
    requires
        first < 0x1_0000,
        second < 0x1_0000,
        first != second,
    ensures
        sequence_of(first) != sequence_of(second),
{
}

/// Draws the identifier for a run from `rand::random`, the thread-local
/// generator of the `rand` crate. Any sixteen-bit value can come back, and two
/// calls need not agree, so nothing is claimed of the result. The generator
/// seeds itself from the operating system and aborts if that source fails.
#[verifier::external_body]
fn random_identifier() -> u16 {
    rand::random::<u16>()
}

/// The probing policy for one host.
pub struct HostRunner {
    count: usize,
    timeout_ns: u64,
    identifier: u16,
    phase: Phase,
    attempts: usize,
    best: Option<u64>,
}

impl View for HostRunner {
    type V = RunnerState;

    closed spec fn view(&self) -> RunnerState {
        RunnerState {
            count: self.count,
            timeout_ns: self.timeout_ns,
            identifier: self.identifier,
            phase: self.phase,
            attempts: self.attempts,
            best: self.best,
        }
    }
}

impl HostRunner {
    #[verifier::type_invariant]
    spec fn valid(self) -> bool {
        self@.wf()
    }

    /// A runner for `count` attempts of at most `timeout_ns` nanoseconds
    /// each, whose requests carry `identifier`.
    pub fn with_identifier(count: usize, timeout_ns: u64, identifier: u16) -> (runner: HostRunner)
        ensures
            runner@ == RunnerState::start(count, timeout_ns, identifier),
    {
        HostRunner {
            count,
            timeout_ns,
            identifier,
            phase: Phase::Resolving,
            attempts: 0,
            best: None,
        }
    }

    /// A runner for `count` attempts of at most `timeout_ns` nanoseconds
    /// each, with an identifier drawn at random once for the whole run.
    pub fn new(count: usize, timeout_ns: u64) -> (runner: HostRunner)
        ensures
            runner@ == RunnerState::start(count, timeout_ns, runner@.identifier),
    {
        HostRunner::with_identifier(count, timeout_ns, random_identifier())
    }

    /// What the runner is waiting for.
    pub fn pending(&self) -> (action: Action)
        ensures
            action == self@.pending(),
    {
        proof {
            use_type_invariant(self);
        }
        match self.phase {
            Phase::Resolving => Action::Resolve,
            Phase::Connecting => Action::Connect,
            Phase::Probing => Action::Probe {
                identifier: self.identifier,
                sequence: (self.attempts % 0x1_0000) as u16,
                timeout_ns: self.timeout_ns,
            },
            Phase::Finished => Action::Finish(HostResult { best_time_ns: self.best }),
        }
    }

    /// Takes in what happened and says what to do next.
    pub fn step(&mut self, event: Event) -> (action: Action)
        ensures
            final(self)@ == old(self)@.after(event),
            final(self)@.wf(),
            action == final(self)@.pending(),
    {
        proof {
            use_type_invariant(&*self);
        }
        let next = match self.phase {
            Phase::Resolving => HostRunner {
                count: self.count,
                timeout_ns: self.timeout_ns,
                identifier: self.identifier,
                phase: match event {
                    Event::Resolved => Phase::Connecting,
                    _ => Phase::Finished,
                },
                attempts: self.attempts,
                best: self.best,
            },
            Phase::Connecting => HostRunner {
                count: self.count,
                timeout_ns: self.timeout_ns,
                identifier: self.identifier,
                phase: match event {
                    Event::ClientReady => if self.count > 0 {
                        Phase::Probing
                    } else {
                        Phase::Finished
                    },
                    _ => Phase::Finished,
                },
                attempts: self.attempts,
                best: self.best,
            },
            Phase::Probing => {
                let mut result = HostResult { best_time_ns: self.best };
                match event {
                    Event::Attempt(outcome) => result.record(outcome),
                    _ => result.record(ProbeOutcome::Failed),
                }
                let attempts = self.attempts + 1;
                HostRunner {
                    count: self.count,
                    timeout_ns: self.timeout_ns,
                    identifier: self.identifier,
                    phase: if attempts < self.count {
                        Phase::Probing
                    } else {
                        Phase::Finished
                    },
                    attempts,
                    best: result.best_time_ns,
                }
            },
            Phase::Finished => HostRunner {
                count: self.count,
                timeout_ns: self.timeout_ns,
                identifier: self.identifier,
                phase: Phase::Finished,
                attempts: self.attempts,
                best: self.best,
            },
        };
        *self = next;
        self.pending()
    }

    /// Whether the run is over.
    pub fn is_finished(&self) -> (finished: bool)
        ensures
            finished == (self@.phase is Finished),
    {
        match self.phase {
            Phase::Finished => true,
            _ => false,
        }
    }

    /// The host's result, once the run is over.
    pub fn result(&self) -> (result: Option<HostResult>)
        ensures
            result == if self@.phase is Finished {
                Some(self@.result())
            } else {
                None
            },
    {
        match self.phase {
            Phase::Finished => Some(HostResult { best_time_ns: self.best }),
            _ => None,
        }
    }

    /// The number of attempts that have ended.
    pub fn attempts_made(&self) -> (attempts: usize)
        ensures
            attempts == self@.attempts,
            attempts <= self@.count,
    {
        proof {
            use_type_invariant(self);
        }
        self.attempts
    }

    /// The identifier that every request of this run carries.
    pub fn identifier(&self) -> (identifier: u16)
        ensures
            identifier == self@.identifier,
    {
        self.identifier
    }
}

} // verus!
