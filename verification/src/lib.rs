//! Verified core of the floxide workflow framework: retry policies and
//! backoff schedules, context merging, the in-memory stores that back
//! distributed runs, the event log, and the decisions that workers and
//! orchestrators make between their asynchronous calls.
pub mod duration;
pub mod error;
pub mod retry;
pub mod transition;
pub mod merge;
pub mod backoff;

pub mod keyed;
pub mod distributed;
pub mod workflow;
pub mod checkpoint;

pub mod clock;
pub mod event_log;
pub mod batch;
pub mod split;
pub mod lifecycle;
pub mod transform;
pub mod longrunning;
pub mod reactive;
pub mod syntax;
pub mod definition;
pub mod event;
