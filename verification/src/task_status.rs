//! Extended task status used by duplicate detection, and validation of
//! task-related data.

use vstd::prelude::*;
use vstd::string::StringExecFns;
use crate::status::DownloadStatus;
use crate::task::TaskId;
use crate::url_normalization::{is_valid_hash_text, is_valid_url_hash};

verus! {

/// Task status extended with a marker for tasks that duplicate another task.
#[derive(Debug, Eq)]
pub enum TaskStatus {
    /// Task is waiting to start.
    Waiting,
    /// Task is currently downloading.
    Downloading,
    /// Task has been paused.
    Paused,
    /// Task completed successfully.
    Completed,
    /// Task failed, with the reason.
    Failed(String),
    /// Task duplicates the given task.
    Duplicate(TaskId),
}

/// Equality of two extended statuses.
pub open spec fn task_status_eq(a: TaskStatus, b: TaskStatus) -> bool {
    match (a, b) {
        (TaskStatus::Waiting, TaskStatus::Waiting) => true,
        (TaskStatus::Downloading, TaskStatus::Downloading) => true,
        (TaskStatus::Paused, TaskStatus::Paused) => true,
        (TaskStatus::Completed, TaskStatus::Completed) => true,
        (TaskStatus::Failed(x), TaskStatus::Failed(y)) => x@ == y@,
        (TaskStatus::Duplicate(x), TaskStatus::Duplicate(y)) => x == y,
        _ => false,
    }
}

impl PartialEq for TaskStatus {
    fn eq(&self, other: &Self) -> (r: bool) {
        match (self, other) {
            (TaskStatus::Waiting, TaskStatus::Waiting) => true,
            (TaskStatus::Downloading, TaskStatus::Downloading) => true,
            (TaskStatus::Paused, TaskStatus::Paused) => true,
            (TaskStatus::Completed, TaskStatus::Completed) => true,
            (TaskStatus::Failed(x), TaskStatus::Failed(y)) => *x == *y,
            (TaskStatus::Duplicate(x), TaskStatus::Duplicate(y)) => x.0 == y.0,
            _ => false,
        }
    }
}

impl vstd::std_specs::cmp::PartialEqSpecImpl for TaskStatus {
    open spec fn obeys_eq_spec() -> bool {
        true
    }

    open spec fn eq_spec(&self, other: &Self) -> bool {
        task_status_eq(*self, *other)
    }
}

impl Clone for TaskStatus {
    /// Cloning preserves the status value.
    fn clone(&self) -> (r: Self)
        ensures
            r == *self,
    {
        match self {
            TaskStatus::Waiting => TaskStatus::Waiting,
            TaskStatus::Downloading => TaskStatus::Downloading,
            TaskStatus::Paused => TaskStatus::Paused,
            TaskStatus::Completed => TaskStatus::Completed,
            TaskStatus::Failed(x) => TaskStatus::Failed(x.clone()),
            TaskStatus::Duplicate(id) => TaskStatus::Duplicate(*id),
        }
    }
}

impl TaskStatus {
    /// Only waiting, paused and failed tasks may be marked as duplicates.
    pub open spec fn spec_can_transition_to_duplicate(&self) -> bool {
        self is Waiting || self is Paused || self is Failed
    }

    #[verifier::when_used_as_spec(spec_can_transition_to_duplicate)]
    pub fn can_transition_to_duplicate(&self) -> (r: bool)
        ensures
            r == self.spec_can_transition_to_duplicate(),
    {
        matches!(self, TaskStatus::Waiting | TaskStatus::Paused | TaskStatus::Failed(_))
    }

    /// The base status this extended status stands for. A duplicate marker
    /// maps to `Completed`: the task it points at does the actual download.
    pub fn to_download_status(&self) -> (r: DownloadStatus)
        ensures
            *self is Waiting ==> r is Waiting,
            *self is Downloading ==> r is Downloading,
            *self is Paused ==> r is Paused,
            *self is Completed ==> r is Completed,
            self matches TaskStatus::Failed(m) ==> r matches DownloadStatus::Failed(n) && m@ == n@,
            *self is Duplicate ==> r is Completed,
    {
        match self {
            TaskStatus::Waiting => DownloadStatus::Waiting,
            TaskStatus::Downloading => DownloadStatus::Downloading,
            TaskStatus::Paused => DownloadStatus::Paused,
            TaskStatus::Completed => DownloadStatus::Completed,
            TaskStatus::Failed(msg) => DownloadStatus::Failed(msg.clone()),
            TaskStatus::Duplicate(_) => DownloadStatus::Completed,
        }
    }

    /// The extended status a base status corresponds to.
    pub open spec fn spec_from_download_status(status: DownloadStatus) -> TaskStatus {
        match status {
            DownloadStatus::Waiting => TaskStatus::Waiting,
            DownloadStatus::Downloading => TaskStatus::Downloading,
            DownloadStatus::Paused => TaskStatus::Paused,
            DownloadStatus::Completed => TaskStatus::Completed,
            DownloadStatus::Failed(msg) => TaskStatus::Failed(msg),
        }
    }

    /// The extended status a base status corresponds to.
    pub fn from_download_status(status: DownloadStatus) -> (r: Self)
        ensures
            r == Self::spec_from_download_status(status),
    {
        match status {
            DownloadStatus::Waiting => TaskStatus::Waiting,
            DownloadStatus::Downloading => TaskStatus::Downloading,
            DownloadStatus::Paused => TaskStatus::Paused,
            DownloadStatus::Completed => TaskStatus::Completed,
            DownloadStatus::Failed(msg) => TaskStatus::Failed(msg),
        }
    }
}

/// Validation errors for task-related data.
#[derive(Debug)]
pub enum TaskValidationError {
    /// The fingerprint text is not 64 lowercase hex characters.
    InvalidUrlHash { hash: String, expected_format: String },
    /// The task identifier text is unusable.
    InvalidTaskId { reason: String },
    /// The requested status transition is not allowed.
    InvalidStatusTransition { from: String, to: String, reason: String },
}

/// The message text of each validation error.
pub open spec fn spec_validation_message(e: &TaskValidationError) -> Seq<char> {
    match e {
        TaskValidationError::InvalidUrlHash { hash, expected_format } => "Invalid URL hash '"@
            + hash@ + "': expected "@ + expected_format@,
        TaskValidationError::InvalidTaskId { reason } => "Invalid task ID: "@ + reason@,
        TaskValidationError::InvalidStatusTransition { from, to, reason } => {
            "Invalid status transition from "@ + from@ + " to "@ + to@ + ": "@ + reason@
        },
    }
}

impl TaskValidationError {
    /// The error rendered as text.
    pub fn message(&self) -> (r: String)
        ensures
            r@ == spec_validation_message(self),
    {
        match self {
            TaskValidationError::InvalidUrlHash { hash, expected_format } => {
                let mut s = "Invalid URL hash '".to_owned();
                s.append(hash.as_str());
                s.append("': expected ");
                s.append(expected_format.as_str());
                s
            },
            TaskValidationError::InvalidTaskId { reason } => {
                let mut s = "Invalid task ID: ".to_owned();
                s.append(reason.as_str());
                s
            },
            TaskValidationError::InvalidStatusTransition { from, to, reason } => {
                let mut s = "Invalid status transition from ".to_owned();
                s.append(from.as_str());
                s.append(" to ");
                s.append(to.as_str());
                s.append(": ");
                s.append(reason.as_str());
                s
            },
        }
    }
}

/// Validation of task-related data.
pub struct TaskValidator;

/// The short name of each extended status variant.
pub open spec fn spec_status_name(s: &TaskStatus) -> Seq<char> {
    match s {
        TaskStatus::Waiting => "Waiting"@,
        TaskStatus::Downloading => "Downloading"@,
        TaskStatus::Paused => "Paused"@,
        TaskStatus::Completed => "Completed"@,
        TaskStatus::Failed(_) => "Failed"@,
        TaskStatus::Duplicate(_) => "Duplicate"@,
    }
}

/// The short name of an extended status variant.
pub fn status_name(s: &TaskStatus) -> (r: String)
    ensures
        r@ == spec_status_name(s),
{
    match s {
        TaskStatus::Waiting => "Waiting".to_owned(),
        TaskStatus::Downloading => "Downloading".to_owned(),
        TaskStatus::Paused => "Paused".to_owned(),
        TaskStatus::Completed => "Completed".to_owned(),
        TaskStatus::Failed(_) => "Failed".to_owned(),
        TaskStatus::Duplicate(_) => "Duplicate".to_owned(),
    }
}

impl TaskValidator {
    /// Accept exactly the well-formed fingerprints: 64 lowercase hex
    /// characters. Everything else is an `InvalidUrlHash` error carrying the
    /// rejected text.
    pub fn validate_url_hash(url_hash: &str) -> (r: Result<(), TaskValidationError>)
        ensures
            r is Ok <==> is_valid_hash_text(url_hash@),
            r matches Err(e) ==> e matches TaskValidationError::InvalidUrlHash {
                hash,
                expected_format,
            } && hash@ == url_hash@ && expected_format@ == "64-character Blake3 hex string"@,
    {
        if !is_valid_url_hash(url_hash) {
            return Err(TaskValidationError::InvalidUrlHash {
                hash: url_hash.to_owned(),
                expected_format: "64-character Blake3 hex string".to_owned(),
            });
        }
        Ok(())
    }

    /// A task identifier always renders as non-empty text, so validation
    /// always succeeds.
    pub fn validate_task_id(task_id: &TaskId) -> (r: Result<(), TaskValidationError>)
        ensures
            r is Ok,
    {
        let text = task_id.to_string();
        if text.as_str().is_empty() {
            return Err(TaskValidationError::InvalidTaskId {
                reason: "Task ID cannot be empty".to_owned(),
            });
        }
        Ok(())
    }

    /// Accept a transition into the duplicate marker only from `Waiting`,
    /// `Paused` or `Failed`; every transition to a non-duplicate status
    /// passes this check (the scheduler guards those separately).
    pub fn validate_status_transition(from: &TaskStatus, to: &TaskStatus) -> (r: Result<
        (),
        TaskValidationError,
    >)
        ensures
            r is Ok <==> (!(*to is Duplicate) || from.spec_can_transition_to_duplicate()),
            r matches Err(e) ==> e matches TaskValidationError::InvalidStatusTransition {
                from: f,
                to: t,
                ..
            } && f@ == spec_status_name(from) && t@ == spec_status_name(to),
    {
        match (from, to) {
            (TaskStatus::Waiting, TaskStatus::Duplicate(_)) => Ok(()),
            (TaskStatus::Paused, TaskStatus::Duplicate(_)) => Ok(()),
            (TaskStatus::Failed(_), TaskStatus::Duplicate(_)) => Ok(()),
            (TaskStatus::Downloading, TaskStatus::Duplicate(_)) => Err(
                TaskValidationError::InvalidStatusTransition {
                    from: status_name(from),
                    to: status_name(to),
                    reason: "Cannot mark downloading task as duplicate".to_owned(),
                },
            ),
            (TaskStatus::Completed, TaskStatus::Duplicate(_)) => Err(
                TaskValidationError::InvalidStatusTransition {
                    from: status_name(from),
                    to: status_name(to),
                    reason: "Cannot mark completed task as duplicate".to_owned(),
                },
            ),
            (TaskStatus::Duplicate(_), TaskStatus::Duplicate(_)) => Err(
                TaskValidationError::InvalidStatusTransition {
                    from: status_name(from),
                    to: status_name(to),
                    reason: "Task is already marked as duplicate".to_owned(),
                },
            ),
            _ => Ok(()),
        }
    }
}

} // verus!
