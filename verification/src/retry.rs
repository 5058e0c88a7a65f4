//! A reusable bounded-retry primitive: poll an external store until a value
//! appears, up to a fixed number of attempts with a fixed delay between them.
//!
//! The store reads and the sleeping happen outside; this module holds the
//! decision logic, so that the whole retry behaviour is a function of the
//! sequence of read outcomes.

use vstd::prelude::*;

verus! {

/// How one poll ends.
#[derive(Debug)]
pub enum PollResult {
    /// The store yielded this value.
    Found(String),
    /// Every attempt came back empty.
    TimedOut,
}

/// What to do after one more read of the store.
#[derive(Debug)]
pub enum RetryDecision {
    /// The value arrived: hand it out.
    Deliver(String),
    /// Nothing yet and attempts remain: wait one interval and read again.
    Again,
    /// Nothing yet and the budget is spent: report the timeout.
    GiveUp,
}

/// Decides after the attempt numbered `attempts_made + 1`: deliver a value
/// the store yielded, retry while attempts remain, give up otherwise.
pub fn retry_step(attempts_made: u64, max_attempts: u64, outcome: Option<String>) -> (r:
    RetryDecision)
    requires
        attempts_made < max_attempts,
    ensures
        match outcome {
            Some(v) => r matches RetryDecision::Deliver(x) && x == v,
            None => if attempts_made + 1 < max_attempts {
                r is Again
            } else {
                r is GiveUp
            },
        },
{
    match outcome {
        Some(v) => RetryDecision::Deliver(v),
        None => {
            if attempts_made + 1 < max_attempts {
                RetryDecision::Again
            } else {
                RetryDecision::GiveUp
            }
        },
    }
}

/// The outcome of the attempt numbered `i`: reads beyond the recorded ones
/// found nothing.
pub open spec fn spec_outcome_at(outcomes: Seq<Option<String>>, i: int) -> Option<String> {
    if 0 <= i < outcomes.len() {
        outcomes[i]
    } else {
        None
    }
}

/// The first attempt in `[from, max)` whose read yields a value.
pub open spec fn spec_first_hit_from(outcomes: Seq<Option<String>>, from: int, max: int) -> Option<
    int,
>
    decreases max - from,
{
    if from >= max {
        None
    } else {
        match spec_outcome_at(outcomes, from) {
            Some(_) => Some(from),
            None => spec_first_hit_from(outcomes, from + 1, max),
        }
    }
}

/// Polls over a recorded sequence of store reads: attempt `i` sees
/// `outcomes[i]` (or nothing, past the end).  Stops at the first value, else
/// after exactly `max_attempts` attempts.
pub fn poll_store(outcomes: &Vec<Option<String>>, max_attempts: u64) -> (r: (PollResult, u64))
    ensures
        match spec_first_hit_from(outcomes@, 0, max_attempts as int) {
            Some(h) => r.0 matches PollResult::Found(v) && Some(v) == spec_outcome_at(outcomes@, h)
                && r.1 == h + 1,
            None => r.0 is TimedOut && r.1 == max_attempts,
        },
{
    let mut i: u64 = 0;
    while i < max_attempts
        invariant
            i <= max_attempts,
            spec_first_hit_from(outcomes@, 0, max_attempts as int) == spec_first_hit_from(
                outcomes@,
                i as int,
                max_attempts as int,
            ),
        decreases max_attempts - i,
    {
        let outcome: Option<String> = if i < outcomes.len() as u64 {
            match &outcomes[i as usize] {
                Some(v) => Some(v.clone()),
                None => None,
            }
        } else {
            None
        };
        match retry_step(i, max_attempts, outcome) {
            RetryDecision::Deliver(v) => {
                return (PollResult::Found(v), i + 1);
            },
            RetryDecision::Again => {},
            RetryDecision::GiveUp => {
                proof {
                    assert(spec_outcome_at(outcomes@, i as int) is None);
                    assert(spec_first_hit_from(outcomes@, i as int, max_attempts as int)
                        == spec_first_hit_from(outcomes@, i + 1, max_attempts as int));
                    assert(spec_first_hit_from(outcomes@, i + 1, max_attempts as int) is None);
                }
                return (PollResult::TimedOut, max_attempts);
            },
        }
        i = i + 1;
    }
    (PollResult::TimedOut, max_attempts)
}

/// A store that never yields exhausts every attempt: the poll times out after
/// exactly `max` attempts.
pub proof fn lemma_poll_exhausts_all_attempts(outcomes: Seq<Option<String>>, from: int, max: int)
    requires
        forall|i: int| 0 <= i < outcomes.len() ==> outcomes[i] is None,
    ensures
        spec_first_hit_from(outcomes, from, max) is None,
    decreases max - from,
{
    if from < max {
        lemma_poll_exhausts_all_attempts(outcomes, from + 1, max);
    }
}

} // verus!
