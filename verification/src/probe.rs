//! One host's probe attempts and their reduction to a best round-trip time.

use vstd::prelude::*;
use vstd::seq_lib::group_to_multiset_ensures;

verus! {

/// The number of payload bytes that every echo request carries.
pub const PAYLOAD_LEN: usize = 8;

/// How one echo request ended.
#[derive(Debug, Clone, Copy, PartialEq, Eq)]
pub enum ProbeOutcome {
    /// The matching reply arrived after this many nanoseconds.
    Succeeded(u64),
    /// The request could not be sent, or the reply could not be received.
    Failed,
    /// No reply arrived within the allowed wait.
    TimedOut,
}

/// What is known of one host once its attempts are over.
#[derive(Debug, Clone, Copy, PartialEq, Eq)]
pub struct HostResult {
    /// The shortest round trip among the successful attempts, in
    /// nanoseconds; `None` if no attempt succeeded.
    pub best_time_ns: Option<u64>,
}

/// The length in nanoseconds of a span of `secs` whole seconds and
/// `subsec_nanos` nanoseconds.
pub open spec fn nanoseconds_of(secs: u64, subsec_nanos: u32) -> nat {
    (secs * 1_000_000_000 + subsec_nanos) as nat
}

/// The length in nanoseconds of a span of `secs` whole seconds and
/// `subsec_nanos` nanoseconds, or the longest span that sixty-four bits can
/// hold if it is longer than that.
pub fn saturating_nanoseconds(secs: u64, subsec_nanos: u32) -> (nanos: u64)
    ensures
        nanos == if nanoseconds_of(secs, subsec_nanos) <= u64::MAX {
            nanoseconds_of(secs, subsec_nanos)
        } else {
            u64::MAX as nat
        },
{
    let exact: u128 = secs as u128 * 1_000_000_000 + subsec_nanos as u128;
    if exact <= u64::MAX as u128 {
        exact as u64
    } else {
        u64::MAX
    }
}

/// The best time after one more attempt: a successful attempt lowers it to its
/// own round-trip time if that is shorter, any other attempt leaves it alone.
pub open spec fn fold_attempt(best: Option<u64>, outcome: ProbeOutcome) -> Option<u64> {
    match outcome {
        ProbeOutcome::Succeeded(time) => match best {
            Some(shortest) => Some(if time < shortest { time } else { shortest }),
            None => Some(time),
        },
        _ => best,
    }
}

/// The best time of a series of attempts, folded in from first to last.
pub open spec fn best_time(outcomes: Seq<ProbeOutcome>) -> Option<u64>
    decreases outcomes.len(),
{
    if outcomes.len() == 0 {
        None
    } else {
        fold_attempt(best_time(outcomes.drop_last()), outcomes.last())
    }
}

/// `best` is the minimum over the successful attempts among `outcomes`:
/// absent when none succeeded, else the round-trip time of one of them that
/// no other undercuts.
pub open spec fn is_minimum_of(best: Option<u64>, outcomes: Seq<ProbeOutcome>) -> bool {
    match best {
        None => forall|time: u64| !outcomes.contains(ProbeOutcome::Succeeded(time)),
        Some(shortest) => {
            &&& outcomes.contains(ProbeOutcome::Succeeded(shortest))
            &&& forall|time: u64| #[trigger]
                outcomes.contains(ProbeOutcome::Succeeded(time)) ==> shortest <= time
        },
    }
}

/// The best time of a series of attempts is the minimum of its successful
/// round-trip times.
pub proof fn lemma_best_time_is_minimum(outcomes: Seq<ProbeOutcome>)
    ensures
        is_minimum_of(best_time(outcomes), outcomes),
    decreases outcomes.len(),
{
    if outcomes.len() > 0 {
        let earlier = outcomes.drop_last();
        let last = outcomes.last();
        lemma_best_time_is_minimum(earlier);
        assert forall|x: ProbeOutcome| outcomes.contains(x) <==> (earlier.contains(x) || x
            == last) by {
            if outcomes.contains(x) {
                let i = choose|i: int| 0 <= i < outcomes.len() && outcomes[i] == x;
                if i < earlier.len() {
                    assert(earlier[i] == x);
                }
            }
            if earlier.contains(x) {
                let i = choose|i: int| 0 <= i < earlier.len() && earlier[i] == x;
                assert(outcomes[i] == x);
            }
            if x == last {
                assert(outcomes[outcomes.len() - 1] == x);
            }
        }
    }
}

/// Only one value is the minimum of a series of attempts.
pub proof fn lemma_minimum_is_unique(a: Option<u64>, b: Option<u64>, outcomes: Seq<ProbeOutcome>)
    requires
        is_minimum_of(a, outcomes),
        is_minimum_of(b, outcomes),
    ensures
        a == b,
{
}

/// The best time does not depend on the order in which the attempts
/// completed: two series with the same outcomes, each as often, have the same
/// best time.
pub proof fn lemma_best_time_ignores_order(a: Seq<ProbeOutcome>, b: Seq<ProbeOutcome>)
    requires
        a.to_multiset() == b.to_multiset(),
    ensures
        best_time(a) == best_time(b),
{
    broadcast use group_to_multiset_ensures;

    lemma_best_time_is_minimum(a);
    lemma_best_time_is_minimum(b);
    assert forall|x: ProbeOutcome| a.contains(x) <==> b.contains(x) by {
        assert(a.contains(x) <==> a.to_multiset().count(x) > 0);
        assert(b.contains(x) <==> b.to_multiset().count(x) > 0);
    }
    lemma_minimum_is_unique(best_time(a), best_time(b), b);
}

/// Folding in one more attempt never raises the best time, and never loses
/// one that was there.
pub proof fn lemma_best_time_never_rises(outcomes: Seq<ProbeOutcome>, next: ProbeOutcome)
    ensures
        best_time(outcomes.push(next)) == fold_attempt(best_time(outcomes), next),
        best_time(outcomes) matches Some(before) ==> (best_time(outcomes.push(next)) matches Some(
            after,
        ) && after <= before),
{
    assert(outcomes.push(next).drop_last() =~= outcomes);
}

impl ProbeOutcome {
    /// The round-trip time of a successful attempt.
    pub open spec fn round_trip(self) -> Option<u64> {
        match self {
            ProbeOutcome::Succeeded(time) => Some(time),
            _ => None,
        }
    }

    /// The round-trip time in nanoseconds if the attempt succeeded.
    pub fn round_trip_ns(&self) -> (time: Option<u64>)
        ensures
            time == self.round_trip(),
    {
        match self {
            ProbeOutcome::Succeeded(time) => Some(*time),
            _ => None,
        }
    }
}

impl HostResult {
    /// The result of a host that has not answered.
    pub fn silent() -> (result: HostResult)
        ensures
            result.best_time_ns is None,
    {
        HostResult { best_time_ns: None }
    }

    /// Folds one more attempt into the result.
    pub fn record(&mut self, outcome: ProbeOutcome)
        ensures
            final(self).best_time_ns == fold_attempt(old(self).best_time_ns, outcome),
            old(self).best_time_ns matches Some(before) ==> (final(self).best_time_ns matches Some(
                after,
            ) && after <= before),
    {
        match outcome {
            ProbeOutcome::Succeeded(time) => {
                let lowered = match self.best_time_ns {
                    Some(shortest) => if time < shortest {
                        time
                    } else {
                        shortest
                    },
                    None => time,
                };
                self.best_time_ns = Some(lowered);
            },
            _ => {},
        }
    }

    /// Reduces a host's attempts to its result.
    pub fn from_attempts(outcomes: &[ProbeOutcome]) -> (result: HostResult)
        ensures
            result.best_time_ns == best_time(outcomes@),
            is_minimum_of(result.best_time_ns, outcomes@),
    {
        let mut result = HostResult::silent();
        let mut i: usize = 0;
        while i < outcomes.len()
            invariant
                i <= outcomes.len(),
                result.best_time_ns == best_time(outcomes@.take(i as int)),
            decreases outcomes.len() - i,
        {
            proof {
                assert(outcomes@.take(i + 1).drop_last() =~= outcomes@.take(i as int));
            }
            result.record(outcomes[i]);
            i += 1;
        }
        proof {
            assert(outcomes@.take(i as int) =~= outcomes@);
            lemma_best_time_is_minimum(outcomes@);
        }
        result
    }

    /// Whether at least one attempt succeeded.
    pub fn is_responsive(&self) -> (responsive: bool)
        ensures
            responsive == (self.best_time_ns is Some),
    {
        self.best_time_ns.is_some()
    }
}

} // verus!
