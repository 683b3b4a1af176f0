//! Workspace services: the plan document, memory facts, file operations, indexing and
//! background jobs.

pub mod file_ops;
pub mod indexer;
pub mod job_manager;
pub mod memory_store;
pub mod log_manager;
pub mod plan_store;
pub mod plan_round_trip;
pub mod task_runner;
pub mod workspace_files;
pub mod workspace_ignore;
