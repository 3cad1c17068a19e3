//! The decisions a distributed worker makes around each work item: whether
//! an item may be processed, what success and failure record, how its own
//! health changes, and how long it sleeps when idle.
use std::time::Duration;
use rand::Rng;
use vstd::prelude::*;
use crate::distributed::liveness_store::{WorkerHealth, WorkerStatus};
use crate::distributed::types::RunMetrics;
use crate::distributed::work_item_store::WorkItemStatus;
use crate::duration::{duration_nanos, from_millis, millis_of};
use crate::error::FloxideError;
use crate::retry::{BackoffStrategy, RetryError, RetryPolicy};

verus! {

/// Attempts allowed when a worker has no retry policy.
pub const DEFAULT_MAX_ATTEMPTS: usize = 5;

/// Idle sleep of a worker built without one, in milliseconds.
pub const DEFAULT_IDLE_SLEEP_MILLIS: u64 = 100;

/// Idle sleep jitter of a worker built without one, in milliseconds.
pub const DEFAULT_IDLE_SLEEP_JITTER_MILLIS: u64 = 50;

/// The retry policy of a worker built without one: 5 attempts,
/// exponential backoff from 1 s up to 10 s, retrying every error.
pub fn default_worker_retry_policy() -> (p: RetryPolicy)
    ensures
        p.max_attempts == 5,
        duration_nanos(p.initial_backoff) == 1000000000,
        duration_nanos(p.max_backoff) == 10000000000,
        p.strategy == BackoffStrategy::Exponential,
        p.jitter is None,
        p.retry_error == RetryError::All,
{
    RetryPolicy::new(5, from_millis(1000), from_millis(10000), BackoffStrategy::Exponential, RetryError::All)
}

/// Why a worker refuses to process a dequeued item.
#[derive(Debug, Clone, Copy, PartialEq, Eq, Structural)]
pub enum StartRefusal {
    AlreadyInProgress,
    AlreadyCompleted,
    PreviouslyFailed,
    WaitingRetry,
    PermanentlyFailed,
}

/// Only a pending item may be processed; any other status refuses it.
pub fn start_decision(status: WorkItemStatus) -> (r: Result<(), StartRefusal>)
    ensures
        r is Ok <==> status == WorkItemStatus::Pending,
        status == WorkItemStatus::InProgress ==> r == Err::<(), StartRefusal>(StartRefusal::AlreadyInProgress),
        status == WorkItemStatus::Completed ==> r == Err::<(), StartRefusal>(StartRefusal::AlreadyCompleted),
        status == WorkItemStatus::Failed ==> r == Err::<(), StartRefusal>(StartRefusal::PreviouslyFailed),
        status == WorkItemStatus::WaitingRetry ==> r == Err::<(), StartRefusal>(StartRefusal::WaitingRetry),
        status == WorkItemStatus::PermanentlyFailed ==> r == Err::<(), StartRefusal>(StartRefusal::PermanentlyFailed),
{
    match status {
        WorkItemStatus::Pending => Ok(()),
        WorkItemStatus::InProgress => Err(StartRefusal::AlreadyInProgress),
        WorkItemStatus::Completed => Err(StartRefusal::AlreadyCompleted),
        WorkItemStatus::Failed => Err(StartRefusal::PreviouslyFailed),
        WorkItemStatus::WaitingRetry => Err(StartRefusal::WaitingRetry),
        WorkItemStatus::PermanentlyFailed => Err(StartRefusal::PermanentlyFailed),
    }
}

/// An item that completed or failed for good is settled: later outcomes
/// reported for it change nothing.
pub open spec fn is_settled(status: WorkItemStatus) -> bool {
    status == WorkItemStatus::Completed || status == WorkItemStatus::PermanentlyFailed
}

/// Whether an item in `status` is settled.
pub fn settled(status: WorkItemStatus) -> (r: bool)
    ensures
        r == is_settled(status),
{
    match status {
        WorkItemStatus::Completed | WorkItemStatus::PermanentlyFailed => true,
        _ => false,
    }
}

/// The metrics after an item succeeded: one more work item, and one more
/// completion when the item was terminal. `None` when the item was already
/// settled (nothing is recorded then).
pub fn record_success(status: WorkItemStatus, terminal: bool, metrics: RunMetrics) -> (r: Option<RunMetrics>)
    requires
        metrics.total_work_items < usize::MAX,
        terminal ==> metrics.completed < usize::MAX,
    ensures
        is_settled(status) <==> r is None,
        r matches Some(m) ==> m == (RunMetrics {
            total_work_items: (metrics.total_work_items + 1) as usize,
            completed: if terminal { (metrics.completed + 1) as usize } else { metrics.completed },
            ..metrics
        }),
{
    match status {
        WorkItemStatus::Completed | WorkItemStatus::PermanentlyFailed => None,
        _ => {
            let mut m = metrics;
            m.total_work_items = m.total_work_items + 1;
            if terminal {
                m.completed = m.completed + 1;
            }
            Some(m)
        },
    }
}

/// What follows a failed attempt of an unsettled item.
pub struct FailurePlan {
    /// Whether the item will be tried again.
    pub retry: bool,
    /// The status the item is left in: waiting for a retry, or failed for
    /// good.
    pub final_status: WorkItemStatus,
    /// Whether the whole run is marked failed.
    pub run_failed: bool,
    /// The worker's status while the item waits: retrying (attempt, most
    /// attempts); unchanged when there is no retry.
    pub worker_status: Option<WorkerStatus>,
    /// How long to wait before queueing the item again, on a retry.
    pub requeue_after: Option<Duration>,
}

/// Plan the handling of a failed attempt: retry when the policy (if any)
/// allows it for `error` at attempt `attempt` and fewer than its maximum
/// attempts were recorded, after the policy's backoff; otherwise fail the
/// item, and the run, for good. Without a policy nothing is retried.
pub fn plan_failure(policy: Option<&RetryPolicy>, error: &FloxideError, attempt: usize, recorded_attempts: u32) -> (p: FailurePlan)
    ensures
        ({
            let should_retry = match policy { Some(pol) => pol.spec_should_retry(*error, attempt), None => false };
            let max = match policy { Some(pol) => pol.max_attempts, None => DEFAULT_MAX_ATTEMPTS };
            let permanent = !should_retry || recorded_attempts >= max;
            &&& p.retry == !permanent
            &&& p.final_status == if permanent { WorkItemStatus::PermanentlyFailed } else { WorkItemStatus::WaitingRetry }
            &&& p.run_failed == permanent
            &&& p.worker_status == if should_retry { Some(WorkerStatus::Retrying(attempt, max)) } else { None::<WorkerStatus> }
            &&& match p.requeue_after {
                Some(d) => !permanent && (policy matches Some(pol) && duration_nanos(d) == pol.spec_backoff_nanos(attempt)),
                None => permanent,
            }
        }),
{
    let should_retry = match policy {
        Some(pol) => pol.should_retry(error, attempt),
        None => false,
    };
    let max_attempts = match policy {
        Some(pol) => pol.max_attempts,
        None => DEFAULT_MAX_ATTEMPTS,
    };
    let permanent = !should_retry || recorded_attempts as usize >= max_attempts;
    let requeue_after = if permanent {
        None
    } else {
        match policy {
            Some(pol) => Some(pol.backoff_duration(attempt)),
            None => None,
        }
    };
    FailurePlan {
        retry: !permanent,
        final_status: if permanent { WorkItemStatus::PermanentlyFailed } else { WorkItemStatus::WaitingRetry },
        run_failed: permanent,
        worker_status: if should_retry { Some(WorkerStatus::Retrying(attempt, max_attempts)) } else { None },
        requeue_after,
    }
}

/// The metrics after a failed attempt: one more retry when the item is
/// retried, one more failure otherwise.
pub fn record_failure(plan: &FailurePlan, metrics: RunMetrics) -> (m: RunMetrics)
    requires
        plan.retry ==> metrics.retries < usize::MAX,
        !plan.retry ==> metrics.failed < usize::MAX,
    ensures
        m == if plan.retry {
            RunMetrics { retries: (metrics.retries + 1) as usize, ..metrics }
        } else {
            RunMetrics { failed: (metrics.failed + 1) as usize, ..metrics }
        },
{
    let mut m = metrics;
    if plan.retry {
        m.retries = m.retries + 1;
    } else {
        m.failed = m.failed + 1;
    }
    m
}

/// The worker's health after a failed attempt: one more error, and the
/// retrying status when the item is retried.
pub fn health_after_failure(plan: &FailurePlan, health: WorkerHealth) -> (h: WorkerHealth)
    requires
        health.error_count < usize::MAX,
    ensures
        h == (WorkerHealth {
            error_count: (health.error_count + 1) as usize,
            status: match plan.worker_status { Some(s) => s, None => health.status },
            ..health
        }),
{
    let mut h = health;
    h.error_count = h.error_count + 1;
    match plan.worker_status {
        Some(s) => { h.status = s; },
        None => {},
    }
    h
}

/// The worker's health once it takes up an item: in progress on that
/// item of that run.
pub fn health_when_started(health: WorkerHealth, work_item: String, run_id: String) -> (h: WorkerHealth)
    ensures
        h == (WorkerHealth {
            status: WorkerStatus::InProgress,
            current_work_item: Some(work_item),
            current_work_item_run_id: Some(run_id),
            ..health
        }),
{
    let mut h = health;
    h.status = WorkerStatus::InProgress;
    h.current_work_item = Some(work_item);
    h.current_work_item_run_id = Some(run_id);
    h
}

/// The worker's health once it is idle again: no current item.
pub fn health_when_idle(health: WorkerHealth) -> (h: WorkerHealth)
    ensures
        h == (WorkerHealth {
            status: WorkerStatus::Idle,
            current_work_item: None,
            current_work_item_run_id: None,
            ..health
        }),
{
    let mut h = health;
    h.status = WorkerStatus::Idle;
    h.current_work_item = None;
    h.current_work_item_run_id = None;
    h
}

/// The worker's health after a heartbeat at `now` (ms since the epoch).
pub fn health_after_heartbeat(health: WorkerHealth, now: i64) -> (h: WorkerHealth)
    ensures
        h == (WorkerHealth { last_heartbeat: now, ..health }),
{
    let mut h = health;
    h.last_heartbeat = now;
    h
}

/// A worker only takes up new work while idle.
pub fn can_worker_continue(health: &WorkerHealth) -> (r: bool)
    ensures
        r == (health.status == WorkerStatus::Idle),
{
    match health.status {
        WorkerStatus::Idle => true,
        _ => false,
    }
}

/// `rand::thread_rng().gen_range(low..=high)`: a random value in the closed
/// range, which must not be empty (`gen_range` panics on an empty range).
#[verifier::external_body]
fn random_in_range(low: i64, high: i64) -> (r: i64)
    requires
        low <= high,
    ensures
        low <= r <= high,
{
    rand::thread_rng().gen_range(low..=high)
}

/// The sleep of an idle worker, in milliseconds: the base sleep plus a
/// jitter in [-range, range], and never negative.
pub open spec fn idle_sleep_millis(base_ms: i64, jitter_ms: i64) -> int {
    if base_ms + jitter_ms >= 0 { base_ms + jitter_ms } else { 0 }
}

/// How long an idle worker sleeps before polling again: the idle sleep
/// duration (in whole milliseconds, taken as an `i64`) plus a random
/// jitter of at most half the jitter duration either way, and at least
/// zero. The sum must not overflow an `i64`.
pub fn next_idle_sleep(idle_sleep_duration: Duration, idle_sleep_jitter: Duration) -> (d: Duration)
    requires
        ({
            let base = ((duration_nanos(idle_sleep_duration) / 1000000) as u64) as i64;
            let range = ((duration_nanos(idle_sleep_jitter) / 1000000) / 2) as i64;
            &&& 0 <= range
            &&& base + range <= i64::MAX
            &&& base - range >= i64::MIN
        }),
    ensures
        ({
            let base = ((duration_nanos(idle_sleep_duration) / 1000000) as u64) as i64;
            let range = ((duration_nanos(idle_sleep_jitter) / 1000000) / 2) as i64;
            exists|j: i64| -range <= j <= range
                && duration_nanos(d) == idle_sleep_millis(base, j) * 1000000
        }),
{
    let base_sleep_ms = #[verifier::truncate] (millis_of(&idle_sleep_duration) as u64);
    let jitter_range_ms = #[verifier::truncate] ((millis_of(&idle_sleep_jitter) / 2) as i64);
    let base = #[verifier::truncate] (base_sleep_ms as i64);
    let jitter_ms = random_in_range(-jitter_range_ms, jitter_range_ms);
    let sum = base + jitter_ms;
    let sleep_ms: u64 = if sum >= 0 { sum as u64 } else { 0 };
    let d = from_millis(sleep_ms);
    assert(duration_nanos(d) == idle_sleep_millis(base, jitter_ms) * 1000000);
    d
}

/// Whether `next_idle_sleep` can work with these durations in `i64`
/// milliseconds: the whole milliseconds of the sleep plus half those of
/// the jitter fit in an `i64`.
pub open spec fn idle_sleep_fits(idle_sleep_duration: Duration, idle_sleep_jitter: Duration) -> bool {
    duration_nanos(idle_sleep_duration) / 1000000 + (duration_nanos(idle_sleep_jitter) / 1000000) / 2 <= i64::MAX
}

/// The sleep of an idle worker: `next_idle_sleep` where its millisecond
/// arithmetic fits in an `i64`, and the plain idle sleep duration
/// otherwise.
pub fn idle_sleep_or_base(idle_sleep_duration: Duration, idle_sleep_jitter: Duration) -> (d: Duration)
    ensures
        !idle_sleep_fits(idle_sleep_duration, idle_sleep_jitter) ==> d == idle_sleep_duration,
        idle_sleep_fits(idle_sleep_duration, idle_sleep_jitter) ==> ({
            let base = ((duration_nanos(idle_sleep_duration) / 1000000) as u64) as i64;
            let range = ((duration_nanos(idle_sleep_jitter) / 1000000) / 2) as i64;
            exists|j: i64| -range <= j <= range
                && duration_nanos(d) == idle_sleep_millis(base, j) * 1000000
        }),
{
    let base_ms = millis_of(&idle_sleep_duration);
    let jitter_ms = millis_of(&idle_sleep_jitter) / 2;
    if base_ms <= 9223372036854775807u128 && jitter_ms <= 9223372036854775807u128 - base_ms {
        next_idle_sleep(idle_sleep_duration, idle_sleep_jitter)
    } else {
        idle_sleep_duration
    }
}

/// A retried item is never failed for good, nor is its run failed; an
/// item that is not retried always is.
pub proof fn lemma_retry_excludes_failure(p: FailurePlan)
    requires
        p.retry == !p.run_failed,
        p.final_status == if p.run_failed { WorkItemStatus::PermanentlyFailed } else { WorkItemStatus::WaitingRetry },
    ensures
        p.retry ==> p.final_status == WorkItemStatus::WaitingRetry && !p.run_failed,
        !p.retry ==> p.final_status == WorkItemStatus::PermanentlyFailed && p.run_failed,
{
}

} // verus!
