use floxide::backoff::{BackoffStrategy, CustomBackoff, RetryNode};
use std::time::Duration;

#[derive(Debug, Clone)]
struct TestContext {
    counter: usize,
    should_fail_until: usize,
}

/// One attempt of the test node: count it, and fail while the count is at
/// most `should_fail_until`.
fn attempt(_node: &&str, mut ctx: TestContext) -> (TestContext, Result<String, String>) {
    ctx.counter += 1;
    if ctx.counter <= ctx.should_fail_until {
        (ctx, Err("Simulated failure".to_string()))
    } else {
        (ctx, Ok("success".to_string()))
    }
}

#[test]
fn test_retry_success_after_failures() {
    let retry_node: RetryNode<&str, TestContext, ()> = RetryNode::with_constant_backoff(
        "test-node",
        5,
        Duration::from_millis(10), // short delay for tests
    );
    let ctx = TestContext {
        counter: 0,
        should_fail_until: 2, // fail first 2 attempts
    };
    let (ctx, result) = retry_node.process_with(ctx, attempt, |_d: Duration| {});
    assert!(result.is_ok());
    assert_eq!(ctx.counter, 3); // should have run 3 times
}

#[test]
fn test_retry_exhausts_attempts() {
    let retry_node: RetryNode<&str, TestContext, ()> =
        RetryNode::with_constant_backoff("always-fail", 3, Duration::from_millis(10));
    let ctx = TestContext {
        counter: 0,
        should_fail_until: 999, // always fail
    };
    let (ctx, result) = retry_node.process_with(ctx, attempt, |_d: Duration| {});
    assert!(result.is_err());
    // Should have attempted 3 times (max_retries)
    assert_eq!(ctx.counter, 3);
}

#[test]
fn retry_waits_for_each_backoff_and_custom_delays_come_from_the_function() {
    let retry_node: RetryNode<&str, TestContext, ()> =
        RetryNode::with_custom_backoff("custom", 3, |a: usize| Duration::from_millis(7 * a as u64));
    let waited = std::cell::RefCell::new(Vec::new());
    let ctx = TestContext { counter: 0, should_fail_until: 999 };
    let (_ctx, result) = retry_node.process_with(ctx, attempt, |d: Duration| waited.borrow_mut().push(d));
    assert!(result.is_err());
    assert_eq!(*waited.borrow(), vec![Duration::from_millis(7), Duration::from_millis(14)]);
}

#[test]
fn test_backoff_strategies() {
    // Test constant backoff
    let constant = BackoffStrategy::Constant(Duration::from_millis(100));
    assert_eq!(constant.calculate_delay(1), Duration::from_millis(100));
    assert_eq!(constant.calculate_delay(2), Duration::from_millis(100));

    // Test linear backoff
    let linear = BackoffStrategy::Linear {
        base: Duration::from_millis(100),
        increment: Duration::from_millis(50),
    };
    assert_eq!(linear.calculate_delay(0), Duration::from_millis(100));
    assert_eq!(linear.calculate_delay(1), Duration::from_millis(150));
    assert_eq!(linear.calculate_delay(2), Duration::from_millis(200));

    // Test exponential backoff
    let exponential = BackoffStrategy::Exponential {
        base: Duration::from_millis(100),
        max: Duration::from_millis(1000),
    };
    assert_eq!(exponential.calculate_delay(0), Duration::from_millis(100));
    assert_eq!(exponential.calculate_delay(1), Duration::from_millis(200));
    assert_eq!(exponential.calculate_delay(2), Duration::from_millis(400));
    assert_eq!(exponential.calculate_delay(3), Duration::from_millis(800));
    assert_eq!(exponential.calculate_delay(4), Duration::from_millis(1000)); // Max reached

    // Test custom backoff
    let custom = BackoffStrategy::Custom(CustomBackoff::new(|attempt| {
        Duration::from_millis(attempt as u64 * 25)
    }));
    assert_eq!(custom.calculate_delay(1), Duration::from_millis(25));
    assert_eq!(custom.calculate_delay(2), Duration::from_millis(50));
    assert_eq!(custom.calculate_delay(10), Duration::from_millis(250));
}

#[test]
fn cloned_custom_backoff_waits_100ms_per_attempt() {
    let custom = BackoffStrategy::Custom(CustomBackoff::new(|_| Duration::from_millis(1)));
    let copy = custom.clone();
    assert_eq!(copy.calculate_delay(3), Duration::from_millis(300));
}

#[test]
fn retry_node_constructors_keep_their_schedule() {
    let lin: RetryNode<u8, (), ()> =
        RetryNode::with_linear_backoff(1, 4, Duration::from_millis(10), Duration::from_millis(5));
    assert_eq!(lin.after_failure(2), Some(Duration::from_millis(20)));
    assert_eq!(lin.after_failure(4), None);
    let exp: RetryNode<u8, (), ()> =
        RetryNode::with_exponential_backoff(1, 10, Duration::from_millis(1), Duration::from_millis(5));
    assert_eq!(exp.after_failure(2), Some(Duration::from_millis(4)));
    assert_eq!(exp.after_failure(3), Some(Duration::from_millis(5)));
    let custom: RetryNode<u8, (), ()> =
        RetryNode::with_custom_backoff(1, 2, |a| Duration::from_secs(a as u64));
    assert_eq!(custom.after_failure(1), Some(Duration::from_secs(1)));
    assert_eq!(*custom.inner(), 1);
}
