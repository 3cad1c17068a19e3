//! State kept for distributed workflow runs: run records, metrics, errors,
//! worker liveness, per-run contexts, work queues and work-item states, and
//! the decisions that orchestrators and workers make from them.
pub mod types;
pub mod run_info_store;
pub mod metrics_store;
pub mod error_store;
pub mod liveness_store;
pub mod context_store;
pub mod work_queue;
pub mod work_item_store;
pub mod worker;
pub mod orchestrator;
