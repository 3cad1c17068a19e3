//! The framework's error type.
use std::time::Duration;
use vstd::prelude::*;

verus! {

/// Errors a node or a workflow run can end with.
#[derive(Debug, Clone)]
pub enum FloxideError {
    /// A generic error with a message.
    Generic(String),
    /// The workflow was cancelled via its cancellation token.
    Cancelled,
    /// The workflow timed out after the specified duration.
    Timeout(Duration),
    /// The workflow was never started, so cannot be resumed.
    NotStarted,
    /// The workflow has already completed; no more work to resume.
    AlreadyCompleted,
}

} // verus!
