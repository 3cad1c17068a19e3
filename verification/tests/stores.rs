use floxide::checkpoint::{Checkpoint, InMemoryCheckpointStore};
use floxide::distributed::context_store::InMemoryContextStore;
use floxide::distributed::error_store::InMemoryErrorStore;
use floxide::distributed::liveness_store::{liveness_status, InMemoryLivenessStore, WorkerHealth, WorkerStatus};
use floxide::distributed::metrics_store::InMemoryMetricsStore;
use floxide::distributed::run_info_store::{InMemoryRunInfoStore, RunInfoError};
use floxide::distributed::types::{LivenessStatus, RunInfo, RunMetrics, RunStatus, WorkflowError};
use floxide::distributed::work_item_store::{InMemoryWorkItemStateStore, WorkItemState, WorkItemStatus};
use floxide::distributed::work_queue::{InMemoryWorkQueue, WorkQueueError};
use floxide::longrunning::{InMemoryStateStore, LongRunningOutcome, StepResult};
use floxide::merge::Merge;
use floxide::workflow::WorkItem;
use std::collections::VecDeque;
use std::time::Duration;

#[derive(Debug, Clone, PartialEq, Eq)]
struct Item {
    node: &'static str,
    n: u32,
}

impl WorkItem for Item {
    fn instance_id(&self) -> String {
        format!("{}-{}", self.node, self.n)
    }
    fn is_terminal(&self) -> bool {
        self.node == "end"
    }
}

fn run(id: &str, status: RunStatus) -> RunInfo {
    RunInfo { run_id: id.to_string(), status, started_at: 1000, finished_at: None, output: None }
}

#[test]
fn run_info_store_updates_and_filters() {
    let mut s = InMemoryRunInfoStore::new();
    s.insert_run(run("a", RunStatus::Running)).unwrap();
    s.insert_run(run("b", RunStatus::Paused)).unwrap();
    s.update_status("a", RunStatus::Completed).unwrap();
    s.update_finished_at("a", 2000).unwrap();
    s.update_output("a", "{\"x\":1}".to_string()).unwrap();
    let a = s.get_run("a").unwrap().unwrap();
    assert_eq!(a.status, RunStatus::Completed);
    assert_eq!(a.finished_at, Some(2000));
    assert_eq!(a.output.as_deref(), Some("{\"x\":1}"));
    assert!(matches!(s.update_status("zz", RunStatus::Failed), Err(RunInfoError::NotFound)));
    assert!(matches!(s.update_finished_at("zz", 1), Err(RunInfoError::NotFound)));
    assert!(matches!(s.update_output("zz", String::new()), Err(RunInfoError::NotFound)));
    assert!(s.get_run("zz").unwrap().is_none());
    let paused = s.list_runs(Some(RunStatus::Paused)).unwrap();
    assert_eq!(paused.len(), 1);
    assert_eq!(paused[0].run_id, "b");
    assert_eq!(s.list_runs(None).unwrap().len(), 2);
    // inserting again under the same id replaces the record
    s.insert_run(run("b", RunStatus::Failed)).unwrap();
    assert_eq!(s.list_runs(None).unwrap().len(), 2);
    assert_eq!(s.get_run("b").unwrap().unwrap().status, RunStatus::Failed);
}

#[test]
fn metrics_and_error_stores_read_back_what_was_written() {
    let mut m = InMemoryMetricsStore::new();
    assert!(m.get_metrics("r").unwrap().is_none());
    let metrics = RunMetrics { total_work_items: 3, completed: 1, failed: 1, retries: 2 };
    m.update_metrics("r", metrics).unwrap();
    assert_eq!(m.get_metrics("r").unwrap(), Some(metrics));
    assert_eq!(RunMetrics::default(), RunMetrics { total_work_items: 0, completed: 0, failed: 0, retries: 0 });

    let mut e = InMemoryErrorStore::new();
    assert!(e.get_errors("r").unwrap().is_empty());
    let err = |n: usize| WorkflowError { work_item: "x".into(), error: "boom".into(), attempt: n, timestamp: 5 };
    e.record_error("r", err(1)).unwrap();
    e.record_error("r", err(2)).unwrap();
    e.record_error("other", err(9)).unwrap();
    let got = e.get_errors("r").unwrap();
    assert_eq!(got.len(), 2);
    assert_eq!(got[0].attempt, 1);
    assert_eq!(got[1].attempt, 2);
}

#[test]
fn liveness_store_tracks_heartbeats_and_health() {
    let mut l = InMemoryLivenessStore::new();
    l.update_heartbeat(3, 1_000).unwrap();
    l.update_heartbeat(1, 2_000).unwrap();
    l.update_heartbeat(3, 3_000).unwrap();
    let mut workers = l.list_workers().unwrap();
    workers.sort();
    assert_eq!(workers, vec![1, 3]);
    assert_eq!(l.get_heartbeat(3).unwrap(), Some(3_000));
    assert_eq!(l.get_heartbeat(9).unwrap(), None);
    let mut h = WorkerHealth::default();
    h.worker_id = 3;
    h.status = WorkerStatus::Retrying(1, 5);
    l.update_health(3, h).unwrap();
    let back = l.get_health(3).unwrap().unwrap();
    assert_eq!(back.status, WorkerStatus::Retrying(1, 5));
    assert_eq!(l.list_health().unwrap().len(), 1);
}

#[test]
fn liveness_verdicts() {
    let t = Duration::from_millis(100);
    assert_eq!(liveness_status(1_000, Some(950), t), LivenessStatus::Alive);
    assert_eq!(liveness_status(1_000, Some(900), t), LivenessStatus::Stale);
    assert_eq!(liveness_status(1_000, Some(750), t), LivenessStatus::Stale);
    assert_eq!(liveness_status(1_000, Some(700), t), LivenessStatus::Dead);
    assert_eq!(liveness_status(1_000, None, t), LivenessStatus::Dead);
    // a heartbeat from the future counts as infinitely old
    assert_eq!(liveness_status(1_000, Some(2_000), t), LivenessStatus::Dead);

    let mut l = InMemoryLivenessStore::new();
    let now = chrono::Utc::now().timestamp_millis();
    l.update_heartbeat(1, now).unwrap();
    let statuses = l.check_worker_liveness(&[1, 2], Duration::from_secs(60));
    assert_eq!(statuses, vec![(1, LivenessStatus::Alive), (2, LivenessStatus::Dead)]);
}

#[derive(Debug, Clone, Default, PartialEq)]
struct Sum(i64);

impl Merge for Sum {
    fn merge(&mut self, other: Self) {
        self.0 += other.0;
    }
}

#[test]
fn context_store_sets_and_merges() {
    let mut c: InMemoryContextStore<Sum> = InMemoryContextStore::new();
    assert_eq!(c.get("r").unwrap(), None);
    c.merge("r", Sum(2)).unwrap();
    assert_eq!(c.get("r").unwrap(), Some(Sum(2)));
    c.merge("r", Sum(3)).unwrap();
    assert_eq!(c.get("r").unwrap(), Some(Sum(5)));
    c.set("r", Sum(1)).unwrap();
    assert_eq!(c.get("r").unwrap(), Some(Sum(1)));
}

#[test]
fn work_queue_is_fifo_per_run() {
    let mut q: InMemoryWorkQueue<u32> = InMemoryWorkQueue::new();
    assert!(q.dequeue().unwrap().is_none());
    assert!(matches!(q.pending_work("a"), Err(WorkQueueError::Empty)));
    q.enqueue("a", 1).unwrap();
    q.enqueue("b", 10).unwrap();
    q.enqueue("a", 2).unwrap();
    assert_eq!(q.pending_work("a").unwrap(), vec![1, 2]);
    assert_eq!(q.peek().unwrap(), Some(("a".to_string(), 1)));
    assert_eq!(q.dequeue().unwrap(), Some(("a".to_string(), 1)));
    assert_eq!(q.dequeue().unwrap(), Some(("a".to_string(), 2)));
    assert_eq!(q.dequeue().unwrap(), Some(("b".to_string(), 10)));
    assert_eq!(q.dequeue().unwrap(), None);
    // an emptied run still has its (empty) queue
    assert_eq!(q.pending_work("a").unwrap(), Vec::<u32>::new());
    q.enqueue("c", 7).unwrap();
    q.purge_run("c").unwrap();
    assert!(matches!(q.pending_work("c"), Err(WorkQueueError::Empty)));
}

#[test]
fn work_item_states_start_pending_and_count_attempts() {
    let mut s: InMemoryWorkItemStateStore<Item> = InMemoryWorkItemStateStore::new();
    let a = Item { node: "start", n: 0 };
    let b = Item { node: "end", n: 1 };
    assert_eq!(s.get_status("r", &a).unwrap(), WorkItemStatus::Pending);
    assert_eq!(s.get_attempts("r", &a).unwrap(), 0);
    s.set_status("r", &a, WorkItemStatus::InProgress).unwrap();
    assert_eq!(s.increment_attempts("r", &a).unwrap(), 1);
    assert_eq!(s.increment_attempts("r", &a).unwrap(), 2);
    assert_eq!(s.get_status("r", &a).unwrap(), WorkItemStatus::InProgress);
    s.reset_attempts("r", &a).unwrap();
    assert_eq!(s.get_attempts("r", &a).unwrap(), 0);
    s.set_status("r", &b, WorkItemStatus::Completed).unwrap();
    // another run is kept apart
    assert_eq!(s.get_status("other", &b).unwrap(), WorkItemStatus::Pending);
    let all = s.get_all("r").unwrap();
    assert_eq!(all.len(), 2);
    assert_eq!(all[0].work_item, a);
    assert_eq!(all[1].status, WorkItemStatus::Completed);
    assert!(s.get_all("nobody").unwrap().is_empty());
    let fresh = WorkItemState::new(a.clone());
    assert_eq!(fresh.status, WorkItemStatus::Pending);
    assert_eq!(fresh.attempts, 0);
}

#[test]
fn checkpoint_store_saves_copies() {
    let mut store: InMemoryCheckpointStore<u32, Item> = InMemoryCheckpointStore::new();
    assert!(store.load("r").unwrap().is_none());
    let mut q = VecDeque::new();
    q.push_back(Item { node: "start", n: 0 });
    let cp = Checkpoint::new(7u32, q);
    store.save("r", &cp).unwrap();
    let back = store.load("r").unwrap().unwrap();
    assert_eq!(back.context, 7);
    assert_eq!(back.queue.len(), 1);
    assert_eq!(back.queue[0], Item { node: "start", n: 0 });
}

#[test]
fn state_store_keeps_state_until_completion() {
    let mut s = InMemoryStateStore::new();
    assert!(!s.has_state("n").unwrap());
    let r: StepResult<&str> = s.record_outcome("n", LongRunningOutcome::Suspend(vec![1])).unwrap();
    assert!(matches!(r, StepResult::Suspended));
    assert!(s.has_state("n").unwrap());
    assert_eq!(s.get_state("n").unwrap(), Some(vec![1]));
    s.save_state("m", vec![2, 3]).unwrap();
    assert_eq!(s.get_all_node_ids().unwrap(), vec!["n".to_string(), "m".to_string()]);
    let done = s.record_outcome("n", LongRunningOutcome::Complete("done")).unwrap();
    assert!(matches!(done, StepResult::Completed("done")));
    assert!(!s.has_state("n").unwrap());
    s.remove_state("m").unwrap();
    assert!(s.get_all_node_ids().unwrap().is_empty());
}

#[test]
fn checked_liveness_refuses_a_threshold_that_overflows() {
    let mut l = InMemoryLivenessStore::new();
    let _ = l.update_heartbeat(1, 0);
    assert!(l.checked_worker_liveness(&[1], Duration::MAX).is_none());
    let report = l.checked_worker_liveness(&[1, 2], Duration::from_secs(60)).unwrap();
    assert_eq!(report.len(), 2);
    assert_eq!(report[0].0, 1);
    assert_eq!(report[1], (2, floxide::distributed::types::LivenessStatus::Dead));
}
