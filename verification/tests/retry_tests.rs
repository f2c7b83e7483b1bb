use wot_api::retry::{run_retry_schedule, RetryDecision, RetryState};

#[test]
fn enough_attempts_reach_the_success() {
    // Fails twice, then succeeds; budgets above two attempts reach it.
    let schedule = vec![false, false, true, true];
    assert_eq!(run_retry_schedule(&schedule, 2), (true, 3));
    assert_eq!(run_retry_schedule(&schedule, 3), (true, 3));
    assert_eq!(run_retry_schedule(&schedule, 200), (true, 3));
}

#[test]
fn exhausted_attempts_return_the_final_failure() {
    let schedule = vec![false, false, true, true];
    assert_eq!(run_retry_schedule(&schedule, 1), (false, 2));
    assert_eq!(run_retry_schedule(&schedule, 0), (false, 1));
}

#[test]
fn immediate_success_needs_one_attempt() {
    assert_eq!(run_retry_schedule(&vec![true], 0), (true, 1));
    assert_eq!(run_retry_schedule(&vec![true, false], 5), (true, 1));
}

#[test]
fn decisions_consume_exactly_one_retry_each() {
    let mut state = RetryState::new(2);
    assert_eq!(state.on_failure(), RetryDecision::SleepAndRetry);
    assert_eq!(state.retries_left, 1);
    assert_eq!(state.on_failure(), RetryDecision::SleepAndRetry);
    assert_eq!(state.retries_left, 0);
    assert_eq!(state.on_failure(), RetryDecision::GiveUp);
    assert_eq!(state.retries_left, 0);
    assert_eq!(state.on_failure(), RetryDecision::GiveUp);
}

struct Flaky {
    failures_left: u32,
    calls: u32,
}

impl Flaky {
    fn call(&mut self) -> Result<&'static str, &'static str> {
        self.calls += 1;
        if self.failures_left > 0 {
            self.failures_left -= 1;
            Err("unavailable")
        } else {
            Ok("connected")
        }
    }
}

/// The loop a caller with a live operation runs: perform, and on failure
/// follow the state machine's decision (the sleep is elided here).
fn drive(op: &mut Flaky, retries: u8) -> Result<&'static str, &'static str> {
    let mut state = RetryState::new(retries);
    loop {
        match op.call() {
            Ok(v) => return Ok(v),
            Err(e) => match state.on_failure() {
                RetryDecision::GiveUp => return Err(e),
                RetryDecision::SleepAndRetry => {},
            },
        }
    }
}

#[test]
fn live_loop_follows_the_state_machine() {
    let mut op = Flaky { failures_left: 3, calls: 0 };
    assert_eq!(drive(&mut op, 5), Ok("connected"));
    assert_eq!(op.calls, 4);

    let mut op = Flaky { failures_left: 3, calls: 0 };
    assert_eq!(drive(&mut op, 3), Ok("connected"));
    assert_eq!(op.calls, 4);

    let mut op = Flaky { failures_left: 3, calls: 0 };
    assert_eq!(drive(&mut op, 2), Err("unavailable"));
    assert_eq!(op.calls, 3);
}
