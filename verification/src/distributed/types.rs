//! Records shared by the distributed stores.
use vstd::prelude::*;
use crate::error::FloxideError;

verus! {

/// Status of a workflow run.
#[derive(Debug, Clone, Copy, PartialEq, Eq, Structural)]
pub enum RunStatus {
    Running,
    Completed,
    Failed,
    Cancelled,
    Paused,
}

impl RunStatus {
    /// A run in a terminal state (completed, failed or cancelled) will not
    /// change any more by itself.
    pub open spec fn spec_is_terminal(self) -> bool {
        self is Completed || self is Failed || self is Cancelled
    }

    /// Whether the run has reached a terminal state.
    pub fn is_terminal(&self) -> (r: bool)
        ensures
            r == self.spec_is_terminal(),
    {
        match self {
            RunStatus::Completed | RunStatus::Failed | RunStatus::Cancelled => true,
            _ => false,
        }
    }
}

/// Information about a workflow run. Times are milliseconds since the
/// Unix epoch (UTC); the output is the run's result as JSON text.
#[derive(Debug)]
pub struct RunInfo {
    pub run_id: String,
    pub status: RunStatus,
    pub started_at: i64,
    pub finished_at: Option<i64>,
    pub output: Option<String>,
}

impl Clone for RunInfo {
    fn clone(&self) -> (r: Self)
        ensures
            r == *self,
    {
        let output = match &self.output {
            Some(o) => Some(o.clone()),
            None => None,
        };
        RunInfo {
            run_id: self.run_id.clone(),
            status: self.status,
            started_at: self.started_at,
            finished_at: self.finished_at,
            output,
        }
    }
}

/// Error information for a workflow work item. The timestamp is in
/// milliseconds since the Unix epoch (UTC).
#[derive(Debug)]
pub struct WorkflowError {
    pub work_item: String,
    pub error: String,
    pub attempt: usize,
    pub timestamp: i64,
}

impl Clone for WorkflowError {
    fn clone(&self) -> (r: Self)
        ensures
            r == *self,
    {
        WorkflowError {
            work_item: self.work_item.clone(),
            error: self.error.clone(),
            attempt: self.attempt,
            timestamp: self.timestamp,
        }
    }
}

/// Metrics for a workflow run.
#[derive(Debug, Clone, Copy, PartialEq, Eq, Structural)]
pub struct RunMetrics {
    pub total_work_items: usize,
    pub completed: usize,
    pub failed: usize,
    pub retries: usize,
}

impl RunMetrics {
    /// All counters at zero.
    pub open spec fn zero() -> RunMetrics {
        RunMetrics { total_work_items: 0, completed: 0, failed: 0, retries: 0 }
    }
}

impl Default for RunMetrics {
    fn default() -> (m: Self)
        ensures
            m == RunMetrics::zero(),
    {
        RunMetrics { total_work_items: 0, completed: 0, failed: 0, retries: 0 }
    }
}

/// Errors of an error store.
#[derive(Debug)]
pub enum ErrorStoreError {
    Io(String),
    Other(String),
}

/// Errors of a liveness store.
#[derive(Debug)]
pub enum LivenessStoreError {
    Io(String),
    Other(String),
}

/// How recently a worker was heard from.
#[derive(Debug, Clone, Copy, PartialEq, Eq, Structural)]
pub enum LivenessStatus {
    Alive,
    Stale,
    Dead,
}

/// An error from one distributed step, with the run and the work item it
/// concerned where they are known.
#[derive(Debug, Clone)]
pub struct StepError<W> {
    pub error: FloxideError,
    pub run_id: Option<String>,
    pub work_item: Option<W>,
}

} // verus!
