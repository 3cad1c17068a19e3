use floxide::error::FloxideError;
use floxide::retry::{with_retry, BackoffStrategy, RetryError, RetryNode, RetryPolicy, RetryStep};
use floxide::transition::Transition;
use std::time::Duration;

#[test]
fn test_linear_backoff() {
    let policy = RetryPolicy::new(
        5,
        Duration::from_millis(100),
        Duration::from_millis(1000),
        BackoffStrategy::Linear,
        RetryError::All,
    );
    assert_eq!(policy.backoff_duration(1), Duration::from_millis(100));
    assert_eq!(policy.backoff_duration(3), Duration::from_millis(300));
    // capped at max_backoff
    assert_eq!(policy.backoff_duration(20), Duration::from_millis(1000));
}

#[test]
fn test_exponential_backoff() {
    let policy = RetryPolicy::new(
        5,
        Duration::from_millis(50),
        Duration::from_millis(400),
        BackoffStrategy::Exponential,
        RetryError::All,
    );
    // 1 -> 50ms, 2 -> 100ms, 3 -> 200ms, 4 -> 400ms, capped thereafter
    assert_eq!(policy.backoff_duration(1), Duration::from_millis(50));
    assert_eq!(policy.backoff_duration(2), Duration::from_millis(100));
    assert_eq!(policy.backoff_duration(3), Duration::from_millis(200));
    assert_eq!(policy.backoff_duration(4), Duration::from_millis(400));
    assert_eq!(policy.backoff_duration(5), Duration::from_millis(400));
}

#[test]
fn test_jitter_addition() {
    let mut policy = RetryPolicy::new(
        3,
        Duration::from_millis(100),
        Duration::from_millis(1000),
        BackoffStrategy::Linear,
        RetryError::All,
    );
    policy = policy.with_jitter(Duration::from_millis(25));
    assert_eq!(
        policy.backoff_duration(2),
        Duration::from_millis(100 * 2 + 25)
    );
}

#[test]
fn test_retry_predicates() {
    let mut policy = RetryPolicy::new(
        3,
        Duration::from_millis(10),
        Duration::from_millis(100),
        BackoffStrategy::Linear,
        RetryError::Generic,
    );
    let gen_err = FloxideError::Generic("oops".into());
    let cancel_err = FloxideError::Cancelled;
    let timeout_err = FloxideError::Timeout(Duration::from_secs(1));
    // Generic only
    assert!(policy.should_retry(&gen_err, 1));
    assert!(!policy.should_retry(&cancel_err, 1));
    assert!(!policy.should_retry(&timeout_err, 1));
    // Exhausted attempts
    assert!(!policy.should_retry(&gen_err, 3));
    // RetryError::All
    policy.retry_error = RetryError::All;
    assert!(policy.should_retry(&cancel_err, 2));
    assert!(policy.should_retry(&timeout_err, 2));
}

#[test]
fn exponential_backoff_saturates_for_late_attempts() {
    let policy = RetryPolicy::new(
        100,
        Duration::from_secs(1),
        Duration::MAX,
        BackoffStrategy::Exponential,
        RetryError::All,
    );
    // 2^(40-1) exceeds 32 bits: the factor saturates at u32::MAX
    assert_eq!(policy.backoff_duration(40), Duration::from_secs(u32::MAX as u64));
    // attempt 0 is treated as attempt 1
    assert_eq!(policy.backoff_duration(0), Duration::from_secs(1));
}

#[test]
fn jitter_saturates_at_duration_max() {
    let policy = RetryPolicy::new(
        3,
        Duration::from_millis(10),
        Duration::MAX,
        BackoffStrategy::Linear,
        RetryError::All,
    )
    .with_jitter(Duration::MAX);
    assert_eq!(policy.backoff_duration(1), Duration::MAX);
}

#[test]
fn retry_node_retries_then_gives_up() {
    let policy = RetryPolicy::new(
        2,
        Duration::from_millis(10),
        Duration::from_millis(100),
        BackoffStrategy::Linear,
        RetryError::All,
    );
    let node: RetryNode<&str> = with_retry("inner", policy);
    assert_eq!(node.inner, "inner");
    let first: Result<Transition<u32>, FloxideError> = Err(FloxideError::Cancelled);
    match node.next_step(first, 1) {
        RetryStep::RetryAfter(d) => assert_eq!(d, Duration::from_millis(10)),
        RetryStep::Finish(_) => panic!("expected a retry"),
    }
    let second: Result<Transition<u32>, FloxideError> = Ok(Transition::Abort(FloxideError::NotStarted));
    match node.next_step(second, 2) {
        RetryStep::Finish(Err(FloxideError::NotStarted)) => {}
        _ => panic!("expected the abort error to be returned"),
    }
    let ok: Result<Transition<u32>, FloxideError> = Ok(Transition::Next(7));
    match node.next_step(ok, 1) {
        RetryStep::Finish(Ok(Transition::Next(7))) => {}
        _ => panic!("expected the success to be handed on"),
    }
}

fn linear_policy(max_attempts: usize) -> RetryPolicy {
    RetryPolicy::new(
        max_attempts,
        Duration::from_millis(100),
        Duration::from_millis(1000),
        BackoffStrategy::Linear,
        RetryError::All,
    )
}

#[test]
fn retry_node_runs_until_an_attempt_is_not_retried() {
    let node = RetryNode::new("inner", linear_policy(3));
    let calls = std::cell::Cell::new(0u32);
    let waits = std::cell::RefCell::new(Vec::new());
    let result: Result<Transition<u32>, FloxideError> = node.process_with(
        &7u32,
        |_n: &&str, x: &u32| {
            calls.set(calls.get() + 1);
            if calls.get() < 3 { Err(FloxideError::Generic("flaky".to_string())) } else { Ok(Transition::Next(*x)) }
        },
        |d: Duration| {
            waits.borrow_mut().push(d);
            Ok(())
        },
    );
    assert!(matches!(result, Ok(Transition::Next(7))));
    assert_eq!(calls.get(), 3);
    assert_eq!(*waits.borrow(), vec![Duration::from_millis(100), Duration::from_millis(200)]);

    // an always-failing node stops after max_attempts attempts
    calls.set(0);
    let result: Result<Transition<u32>, FloxideError> = node.process_with(
        &7u32,
        |_n: &&str, _x: &u32| {
            calls.set(calls.get() + 1);
            Ok(Transition::Abort(FloxideError::Generic("boom".to_string())))
        },
        |_d: Duration| Ok(()),
    );
    assert!(matches!(result, Err(FloxideError::Generic(m)) if m == "boom"));
    assert_eq!(calls.get(), 3);

    // a failing wait ends the run with its error
    let result: Result<Transition<u32>, FloxideError> = node.process_with(
        &7u32,
        |_n: &&str, _x: &u32| Err(FloxideError::Generic("boom".to_string())),
        |_d: Duration| Err(FloxideError::Cancelled),
    );
    assert!(matches!(result, Err(FloxideError::Cancelled)));
}
