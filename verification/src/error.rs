//! Errors the download manager reports.

use vstd::prelude::*;
use vstd::string::StringExecFns;
use crate::task::{TaskId, uuid_text_of};

verus! {

/// Errors of the download manager's operations.
#[derive(Debug)]
pub enum DownloadError {
    /// No task with the given identifier is known.
    TaskNotFound(TaskId),
    /// The status guard denied the requested transition.
    InvalidStatusTransition,
    /// Reserved for callers that reject on saturation.
    ConcurrencyLimitExceeded,
    /// The URL could not be parsed.
    InvalidUrl(String),
    /// The target path was rejected.
    InvalidPath(String),
    /// The transfer engine is not reachable.
    DownloaderUnavailable(String),
    /// An I/O failure, carried as text.
    IoError(String),
    /// A failure of the durable store.
    DatabaseError(String),
    /// Any other failure.
    General(String),
    /// Duplicate detection itself failed.
    DuplicateDetectionError(String),
    /// Verifying a task's validity failed.
    VerificationError(String),
    /// A duplicate was found and the policy forbids proceeding.
    PolicyViolation { task_id: TaskId, reason: String },
}

/// The message text of each error.
pub open spec fn spec_message(e: &DownloadError) -> Seq<char> {
    match e {
        DownloadError::TaskNotFound(id) => "Task with ID "@ + uuid_text_of(id.0) + " not found"@,
        DownloadError::InvalidStatusTransition => "Invalid task status transition"@,
        DownloadError::ConcurrencyLimitExceeded => "Maximum concurrent downloads exceeded"@,
        DownloadError::InvalidUrl(s) => "Invalid URL: "@ + s@,
        DownloadError::InvalidPath(s) => "Invalid target path: "@ + s@,
        DownloadError::DownloaderUnavailable(s) => "Downloader not available: "@ + s@,
        DownloadError::IoError(s) => "IO error: "@ + s@,
        DownloadError::DatabaseError(s) => "Database error: "@ + s@,
        DownloadError::General(s) => "General error: "@ + s@,
        DownloadError::DuplicateDetectionError(s) => "Duplicate detection failed: "@ + s@,
        DownloadError::VerificationError(s) => "Task verification failed: "@ + s@,
        DownloadError::PolicyViolation { task_id, reason } => "Policy violation: "@ + reason@
            + ", found duplicate task "@ + uuid_text_of(task_id.0),
    }
}

impl DownloadError {
    /// The error rendered as text.
    pub fn message(&self) -> (r: String)
        ensures
            r@ == spec_message(self),
    {
        match self {
            DownloadError::TaskNotFound(id) => {
                let mut s = "Task with ID ".to_owned();
                let id_text = id.to_string();
                s.append(id_text.as_str());
                s.append(" not found");
                s
            },
            DownloadError::InvalidStatusTransition => "Invalid task status transition".to_owned(),
            DownloadError::ConcurrencyLimitExceeded => {
                "Maximum concurrent downloads exceeded".to_owned()
            },
            DownloadError::InvalidUrl(t) => {
                let mut s = "Invalid URL: ".to_owned();
                s.append(t.as_str());
                s
            },
            DownloadError::InvalidPath(t) => {
                let mut s = "Invalid target path: ".to_owned();
                s.append(t.as_str());
                s
            },
            DownloadError::DownloaderUnavailable(t) => {
                let mut s = "Downloader not available: ".to_owned();
                s.append(t.as_str());
                s
            },
            DownloadError::IoError(t) => {
                let mut s = "IO error: ".to_owned();
                s.append(t.as_str());
                s
            },
            DownloadError::DatabaseError(t) => {
                let mut s = "Database error: ".to_owned();
                s.append(t.as_str());
                s
            },
            DownloadError::General(t) => {
                let mut s = "General error: ".to_owned();
                s.append(t.as_str());
                s
            },
            DownloadError::DuplicateDetectionError(t) => {
                let mut s = "Duplicate detection failed: ".to_owned();
                s.append(t.as_str());
                s
            },
            DownloadError::VerificationError(t) => {
                let mut s = "Task verification failed: ".to_owned();
                s.append(t.as_str());
                s
            },
            DownloadError::PolicyViolation { task_id, reason } => {
                let mut s = "Policy violation: ".to_owned();
                s.append(reason.as_str());
                s.append(", found duplicate task ");
                let id_text = task_id.to_string();
                s.append(id_text.as_str());
                s
            },
        }
    }
}

} // verus!
