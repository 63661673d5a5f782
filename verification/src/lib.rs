//! Download task orchestration: a bounded-concurrency FIFO scheduler over a
//! registry of download tasks, with URL canonicalization, duplicate-detection
//! policies, and decision logic for persistence and recovery.
//!
//! The byte-transfer engine and the durable store are external collaborators:
//! this crate holds the verified state machine and decision functions, and a
//! host process drives the engine and the store with the values they return.

pub mod duplicate_policy;
pub mod duplicate_reason;
pub mod duplicate_result;
pub mod error;
pub mod file_identifier;
pub mod manager;
pub mod persistence;
pub mod progress;
pub mod queue;
pub mod scheduler;
pub mod services;
pub mod status;
pub mod task;
pub mod task_status;
pub mod text;
pub mod url_normalization;

pub use duplicate_policy::DuplicatePolicy;
pub use duplicate_reason::DuplicateReason;
pub use duplicate_result::{DuplicateAction, DuplicateResult};
pub use error::DownloadError;
pub use file_identifier::FileIdentifier;
pub use manager::BasicDownloadManager;
pub use progress::DownloadProgress;
pub use queue::{DownloadEvent, TaskQueueManager};
pub use scheduler::TaskScheduler;
pub use services::{
    BackgroundHashCalculator, DefaultDuplicateDetector, DefaultTaskRepository, TaskValidation,
};
pub use status::DownloadStatus;
pub use task::{DownloadTask, TaskId};
pub use task_status::{TaskStatus, TaskValidationError, TaskValidator};
