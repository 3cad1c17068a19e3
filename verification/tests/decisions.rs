use std::collections::VecDeque;
use std::time::Duration;

use floxide::batch::{collect_batch, BatchNode};
use floxide::distributed::liveness_store::{WorkerHealth, WorkerStatus};
use floxide::distributed::orchestrator::{items_to_requeue, resume_decision, status_of, ResumeAction};
use floxide::distributed::types::{RunInfo, RunMetrics, RunStatus};
use floxide::distributed::work_item_store::{WorkItemState, WorkItemStatus};
use floxide::distributed::worker::{
    can_worker_continue, default_worker_retry_policy, health_after_failure, health_after_heartbeat,
    health_when_idle, health_when_started, idle_sleep_or_base, next_idle_sleep, plan_failure, record_failure,
    record_success, start_decision, StartRefusal,
};
use floxide::error::FloxideError;
use floxide::reactive::FileChangeTracker;
use floxide::retry::{BackoffStrategy, RetryError, RetryPolicy};
use floxide::split::SplitNode;
use floxide::transition::Transition;
use floxide::workflow::{
    initial_queue, resume_precheck, run_precheck, step_effects, successors_added, ItemProcessedOutcome, WorkItem,
};

#[derive(Clone, Debug, PartialEq)]
struct Item(u32, bool);

impl WorkItem for Item {
    fn instance_id(&self) -> String {
        format!("item-{}", self.0)
    }
    fn is_terminal(&self) -> bool {
        self.1
    }
}

fn health() -> WorkerHealth {
    WorkerHealth {
        worker_id: 7,
        last_heartbeat: 0,
        error_count: 0,
        status: WorkerStatus::Idle,
        current_work_item: None,
        current_work_item_run_id: None,
    }
}

#[test]
fn only_pending_items_start() {
    assert_eq!(start_decision(WorkItemStatus::Pending), Ok(()));
    assert_eq!(start_decision(WorkItemStatus::InProgress), Err(StartRefusal::AlreadyInProgress));
    assert_eq!(start_decision(WorkItemStatus::Completed), Err(StartRefusal::AlreadyCompleted));
    assert_eq!(start_decision(WorkItemStatus::Failed), Err(StartRefusal::PreviouslyFailed));
    assert_eq!(start_decision(WorkItemStatus::WaitingRetry), Err(StartRefusal::WaitingRetry));
    assert_eq!(start_decision(WorkItemStatus::PermanentlyFailed), Err(StartRefusal::PermanentlyFailed));
}

#[test]
fn success_counts_items_and_completions() {
    let m = RunMetrics::default();
    let after = record_success(WorkItemStatus::InProgress, true, m).unwrap();
    assert_eq!(after.total_work_items, 1);
    assert_eq!(after.completed, 1);
    let after = record_success(WorkItemStatus::InProgress, false, after).unwrap();
    assert_eq!(after.total_work_items, 2);
    assert_eq!(after.completed, 1);
    assert!(record_success(WorkItemStatus::Completed, true, after).is_none());
    assert!(record_success(WorkItemStatus::PermanentlyFailed, false, after).is_none());
}

#[test]
fn failures_retry_until_the_policy_gives_up() {
    let policy = default_worker_retry_policy();
    assert_eq!(policy.max_attempts, 5);
    let err = FloxideError::Generic("boom".to_string());
    let retry = plan_failure(Some(&policy), &err, 1, 1);
    assert!(retry.retry);
    assert_eq!(retry.final_status, WorkItemStatus::WaitingRetry);
    assert!(!retry.run_failed);
    assert_eq!(retry.worker_status, Some(WorkerStatus::Retrying(1, 5)));
    assert_eq!(retry.requeue_after, Some(Duration::from_millis(1000)));
    let give_up = plan_failure(Some(&policy), &err, 2, 5);
    assert!(!give_up.retry);
    assert_eq!(give_up.final_status, WorkItemStatus::PermanentlyFailed);
    assert!(give_up.run_failed);
    assert_eq!(give_up.requeue_after, None);
    let no_policy = plan_failure(None, &err, 1, 0);
    assert!(!no_policy.retry);
    assert_eq!(no_policy.worker_status, None);

    let m = record_failure(&retry, RunMetrics::default());
    assert_eq!((m.retries, m.failed), (1, 0));
    let m = record_failure(&give_up, m);
    assert_eq!((m.retries, m.failed), (1, 1));

    let h = health_after_failure(&retry, health());
    assert_eq!(h.error_count, 1);
    assert_eq!(h.status, WorkerStatus::Retrying(1, 5));
    let h = health_after_failure(&no_policy, h);
    assert_eq!(h.error_count, 2);
    assert_eq!(h.status, WorkerStatus::Retrying(1, 5));
}

#[test]
fn worker_health_follows_its_work() {
    let h = health_when_started(health(), "item-1".to_string(), "run-1".to_string());
    assert_eq!(h.status, WorkerStatus::InProgress);
    assert_eq!(h.current_work_item.as_deref(), Some("item-1"));
    assert!(!can_worker_continue(&h));
    let h = health_when_idle(h);
    assert_eq!(h.status, WorkerStatus::Idle);
    assert!(h.current_work_item_run_id.is_none());
    assert!(can_worker_continue(&h));
    let h = health_after_heartbeat(h, 1234);
    assert_eq!(h.last_heartbeat, 1234);
}

#[test]
fn idle_sleep_stays_within_its_jitter() {
    for _ in 0..20 {
        let d = next_idle_sleep(Duration::from_millis(100), Duration::from_millis(50));
        assert!(d >= Duration::from_millis(75) && d <= Duration::from_millis(125));
    }
    let d = next_idle_sleep(Duration::from_millis(0), Duration::from_millis(0));
    assert_eq!(d, Duration::from_millis(0));
}

#[test]
fn resuming_depends_on_the_run_status() {
    assert_eq!(resume_decision(RunStatus::Running).unwrap(), ResumeAction::Nothing);
    assert_eq!(resume_decision(RunStatus::Failed).unwrap(), ResumeAction::RequeueUnfinished);
    assert_eq!(resume_decision(RunStatus::Paused).unwrap(), ResumeAction::ResetToPending);
    match resume_decision(RunStatus::Completed) {
        Err(FloxideError::Generic(m)) => assert_eq!(m, "run already completed"),
        other => panic!("unexpected {:?}", other),
    }
    assert!(matches!(resume_decision(RunStatus::Cancelled), Err(FloxideError::AlreadyCompleted)));
    assert!(matches!(status_of(None), Err(FloxideError::NotStarted)));
    let info = RunInfo {
        run_id: "r".to_string(),
        status: RunStatus::Paused,
        started_at: 0,
        finished_at: None,
        output: None,
    };
    assert_eq!(status_of(Some(info)).unwrap(), RunStatus::Paused);
}

#[test]
fn unfinished_items_not_pending_are_requeued() {
    let mut done = WorkItemState::new(Item(1, false));
    done.status = WorkItemStatus::Completed;
    let failed = {
        let mut s = WorkItemState::new(Item(2, false));
        s.status = WorkItemStatus::Failed;
        s
    };
    let pending = WorkItemState::new(Item(3, false));
    let waiting = WorkItemState::new(Item(4, true));
    let items = vec![done, failed, pending, waiting];
    let queued = vec![Item(3, false)];
    assert_eq!(items_to_requeue(&items, &queued), vec![Item(2, false), Item(4, true)]);
}

#[test]
fn batches_gather_outputs_or_the_first_error() {
    let mut out = vec![0];
    let results = vec![
        Ok(Transition::Next(1)),
        Ok(Transition::NextAll(vec![2, 3])),
        Ok(Transition::Hold),
        Ok(Transition::Next(4)),
    ];
    assert!(collect_batch(&mut out, results).is_ok());
    assert_eq!(out, vec![0, 1, 2, 3, 4]);
    let mut out = Vec::new();
    let results = vec![
        Ok(Transition::Next(1)),
        Ok(Transition::Abort(FloxideError::Cancelled)),
        Err(FloxideError::NotStarted),
    ];
    assert!(matches!(collect_batch(&mut out, results), Err(FloxideError::Cancelled)));
}

#[test]
fn split_nodes_fan_out() {
    let node = SplitNode::new(|s: String| s.split(',').map(|p| p.to_string()).collect::<Vec<String>>());
    match node.split("a,b".to_string()) {
        Transition::NextAll(v) => assert_eq!(v, vec!["a".to_string(), "b".to_string()]),
        _ => panic!("expected NextAll"),
    }
}

#[test]
fn run_and_resume_prechecks() {
    let q = initial_queue(Item(1, false));
    assert_eq!(q.len(), 1);
    assert!(run_precheck(&q).is_ok());
    assert!(resume_precheck(&q).is_ok());
    let empty: VecDeque<Item> = VecDeque::new();
    assert!(matches!(run_precheck(&empty), Err(FloxideError::AlreadyCompleted)));
    assert!(matches!(resume_precheck(&empty), Err(FloxideError::AlreadyCompleted)));
    let only_terminal = initial_queue(Item(9, true));
    assert!(matches!(resume_precheck(&only_terminal), Err(FloxideError::AlreadyCompleted)));
    let mut after = VecDeque::new();
    after.push_back(Item(1, false));
    after.push_back(Item(2, false));
    after.push_back(Item(3, true));
    assert_eq!(successors_added(&after, 1), vec![Item(2, false), Item(3, true)]);
    assert!(successors_added(&after, 5).is_empty());
}

#[test]
fn file_changes_are_reported_once() {
    let mut t = FileChangeTracker::new();
    let path = "/tmp/watched".to_string();
    let c = t.observe(&path, 10, 3).unwrap();
    assert_eq!((c.modified_time, c.size), (10, 3));
    assert!(t.observe(&path, 10, 3).is_none());
    assert!(t.observe(&path, 9, 3).is_none());
    assert!(t.observe(&path, 10, 4).is_some());
}

#[test]
fn retry_policy_built_by_hand() {
    let p = RetryPolicy::new(
        3,
        Duration::from_millis(10),
        Duration::from_millis(100),
        BackoffStrategy::Linear,
        RetryError::All,
    );
    assert_eq!(p.max_attempts, 3);
}

#[test]
fn step_effects_follow_the_outcome() {
    let done = step_effects(Ok(Some(5)));
    assert!(done.save_checkpoint && !done.enqueue_successors);
    assert!(matches!(done.outcome, ItemProcessedOutcome::SuccessTerminal));
    assert!(matches!(done.result, Ok(Some(5))));
    let more = step_effects::<u8>(Ok(None));
    assert!(more.save_checkpoint && more.enqueue_successors);
    assert!(matches!(more.outcome, ItemProcessedOutcome::SuccessNonTerminal));
    let failed = step_effects::<u8>(Err(FloxideError::Generic("x".to_string())));
    assert!(!failed.save_checkpoint && !failed.enqueue_successors);
    assert!(matches!(failed.outcome, ItemProcessedOutcome::Error(FloxideError::Generic(ref m)) if m == "x"));
    assert!(matches!(failed.result, Err(FloxideError::Generic(ref m)) if m == "x"));
}

#[test]
fn idle_sleep_falls_back_to_the_base_when_out_of_range() {
    let d = idle_sleep_or_base(Duration::from_millis(100), Duration::from_millis(50));
    assert!(d >= Duration::from_millis(75) && d <= Duration::from_millis(125));
    let huge = Duration::MAX;
    assert_eq!(idle_sleep_or_base(huge, Duration::from_millis(50)), huge);
}

#[test]
fn requeue_skips_completed_and_pending_items() {
    let states = vec![
        WorkItemState::new(Item(1, false)),
        WorkItemState::new(Item(2, false)),
        WorkItemState::new(Item(3, true)),
    ];
    let mut states = states;
    states[0].status = WorkItemStatus::Completed;
    let pending = vec![Item(3, true)];
    assert_eq!(items_to_requeue(&states, &pending), vec![Item(2, false)]);
}

#[test]
fn node_ids_are_kept_or_made_fresh() {
    assert_eq!(floxide::lifecycle::node_id_or_fresh(Some("n1".to_string())), "n1");
    let a = floxide::lifecycle::node_id_or_fresh(None);
    let b = floxide::lifecycle::node_id_or_fresh(None);
    assert_eq!(a.len(), 36);
    assert_ne!(a, b);
    let bytes = a.as_bytes();
    for i in [8, 13, 18, 23] {
        assert_eq!(bytes[i], b'-');
    }
    assert_eq!(bytes[14], b'4');
    assert!(matches!(bytes[19], b'8' | b'9' | b'a' | b'b'));
}

#[test]
fn batches_run_chunk_by_chunk_and_stop_after_a_failing_chunk() {
    let batch: BatchNode<(), &str> = BatchNode::new("node", 2);
    let chunks = std::cell::RefCell::new(Vec::new());
    let run = |chunk: Vec<u32>| -> Vec<Result<Transition<u32>, FloxideError>> {
        chunks.borrow_mut().push(chunk.clone());
        chunk
            .into_iter()
            .map(|x| if x == 3 { Err(FloxideError::Generic("three".to_string())) } else { Ok(Transition::Next(x * 10)) })
            .collect()
    };
    let out = batch.process_chunks(vec![1, 2, 4, 5, 6], &run);
    assert_eq!(out.unwrap(), vec![10, 20, 40, 50, 60]);
    assert_eq!(*chunks.borrow(), vec![vec![1, 2], vec![4, 5], vec![6]]);

    chunks.borrow_mut().clear();
    let out = batch.process_chunks(vec![1, 2, 3, 4, 5, 6], &run);
    assert!(matches!(out, Err(FloxideError::Generic(m)) if m == "three"));
    // the chunk holding 3 was the last one run
    assert_eq!(*chunks.borrow(), vec![vec![1, 2], vec![3, 4]]);
}
