//! Bounded retry with a fixed interval. The decisions live here as a small
//! state machine; the caller performs the operation and the sleep, hands
//! each outcome back, and follows the decision returned.
use vstd::prelude::*;

verus! {

/// What to do after a failed attempt.
#[derive(Clone, Copy, Debug, PartialEq, Eq, Structural)]
pub enum RetryDecision {
    /// Sleep for the configured interval, then try again.
    SleepAndRetry,
    /// Attempts are exhausted; return the failure verbatim.
    GiveUp,
}

/// Decision state of one bounded-retry run: how many retries are left after
/// the current attempt.
#[derive(Debug)]
pub struct RetryState {
    pub retries_left: u8,
}

impl RetryState {
    /// A fresh run that may retry `retries` times after its first attempt.
    pub fn new(retries: u8) -> (r: RetryState)
        ensures
            r.retries_left == retries,
    {
        RetryState { retries_left: retries }
    }

    /// Decision after a failed attempt: retry while retries remain, each
    /// one consuming exactly one, and give up once none are left.
    pub fn on_failure(&mut self) -> (d: RetryDecision)
        ensures
            old(self).retries_left == 0 ==> d == RetryDecision::GiveUp
                && final(self).retries_left == 0,
            old(self).retries_left > 0 ==> d == RetryDecision::SleepAndRetry
                && final(self).retries_left == old(self).retries_left - 1,
    {
        if self.retries_left == 0 {
            RetryDecision::GiveUp
        } else {
            self.retries_left = self.retries_left - 1;
            RetryDecision::SleepAndRetry
        }
    }
}

/// Result of running the retry schedule against a sequence of attempt
/// outcomes (`true` is success): whether it succeeded, and how many
/// attempts were made. An empty schedule makes no attempt and fails.
pub open spec fn spec_retry_run(outcomes: Seq<bool>, retries: nat) -> (bool, nat)
    decreases retries,
{
    if outcomes.len() == 0 {
        (false, 0nat)
    } else if outcomes.first() {
        (true, 1nat)
    } else if retries == 0 {
        (false, 1nat)
    } else {
        let rest = spec_retry_run(outcomes.drop_first(), (retries - 1) as nat);
        (rest.0, (rest.1 + 1) as nat)
    }
}

/// Drives the retry state machine over precomputed outcomes; the caller
/// with a live operation runs the same loop with the operation and sleep in
/// place of the lookup.
pub fn run_retry_schedule(outcomes: &Vec<bool>, retries: u8) -> (r: (bool, usize))
    ensures
        r.0 == spec_retry_run(outcomes@, retries as nat).0,
        r.1 == spec_retry_run(outcomes@, retries as nat).1,
{
    let n = outcomes.len();
    let mut state = RetryState::new(retries);
    let mut i: usize = 0;
    proof {
        assert(outcomes@.skip(0) =~= outcomes@);
    }
    while i < n
        invariant
            i <= n == outcomes@.len(),
            state.retries_left == if retries as usize >= i {
                (retries as usize - i) as u8
            } else {
                0u8
            },
            retries as usize >= i,
            spec_retry_run(outcomes@, retries as nat).0 == spec_retry_run(
                outcomes@.skip(i as int),
                (retries - i) as nat,
            ).0,
            spec_retry_run(outcomes@, retries as nat).1 == spec_retry_run(
                outcomes@.skip(i as int),
                (retries - i) as nat,
            ).1 + i,
        decreases n - i,
    {
        proof {
            assert(outcomes@.skip(i as int).first() == outcomes@[i as int]);
        }
        if outcomes[i] {
            return (true, i + 1);
        }
        match state.on_failure() {
            RetryDecision::GiveUp => {
                return (false, i + 1);
            },
            RetryDecision::SleepAndRetry => {
                proof {
                    assert(outcomes@.skip(i as int).drop_first() =~= outcomes@.skip(i + 1));
                }
            },
        }
        i = i + 1;
    }
    proof {
        assert(outcomes@.skip(n as int) =~= Seq::<bool>::empty());
    }
    (false, n)
}

/// The retry executor's guarantee: against a schedule that fails `n` times
/// and then succeeds, a run allowed `retries` further attempts after the
/// first returns the success after `n + 1` attempts whenever `retries >= n`
/// (that is, whenever the attempt budget exceeds the failure count), and
/// otherwise returns the final failure after exhausting all `retries + 1`
/// attempts, making no further ones.
pub proof fn lemma_retry_executor(outcomes: Seq<bool>, retries: nat, n: nat)
    requires
        n < outcomes.len(),
        forall|j: int| 0 <= j < n ==> !outcomes[j],
        outcomes[n as int],
    ensures
        retries >= n ==> spec_retry_run(outcomes, retries) == (true, (n + 1) as nat),
        retries < n ==> spec_retry_run(outcomes, retries) == (false, (retries + 1) as nat),
    decreases n,
{
    if n == 0 {
        assert(outcomes.first() == outcomes[0]);
    } else {
        assert(outcomes.first() == outcomes[0]);
        assert(!outcomes.first());
        if retries == 0 {
        } else {
            let rest = outcomes.drop_first();
            assert forall|j: int| 0 <= j < n - 1 implies !rest[j] by {
                assert(rest[j] == outcomes[j + 1]);
            }
            assert(rest[n - 1] == outcomes[n as int]);
            lemma_retry_executor(rest, (retries - 1) as nat, (n - 1) as nat);
        }
    }
}

} // verus!
