//! Status of a download task and the predicates that guard its transitions.

use vstd::prelude::*;

verus! {

/// Status of a download task.
///
/// `Waiting` and `Downloading` tasks are still in the scheduler's hands;
/// `Completed` and `Failed` are terminal.
#[derive(Debug, Eq)]
pub enum DownloadStatus {
    /// Task is queued and waiting to start.
    Waiting,
    /// Task is actively downloading.
    Downloading,
    /// Task has been paused by the user.
    Paused,
    /// Task completed successfully.
    Completed,
    /// Task failed, with the reason.
    Failed(String),
}

/// Equality of two statuses: same variant, and for failures the same reason text.
pub open spec fn status_eq(a: DownloadStatus, b: DownloadStatus) -> bool {
    match (a, b) {
        (DownloadStatus::Waiting, DownloadStatus::Waiting) => true,
        (DownloadStatus::Downloading, DownloadStatus::Downloading) => true,
        (DownloadStatus::Paused, DownloadStatus::Paused) => true,
        (DownloadStatus::Completed, DownloadStatus::Completed) => true,
        (DownloadStatus::Failed(x), DownloadStatus::Failed(y)) => x@ == y@,
        _ => false,
    }
}

impl PartialEq for DownloadStatus {
    fn eq(&self, other: &Self) -> (r: bool) {
        match (self, other) {
            (DownloadStatus::Waiting, DownloadStatus::Waiting) => true,
            (DownloadStatus::Downloading, DownloadStatus::Downloading) => true,
            (DownloadStatus::Paused, DownloadStatus::Paused) => true,
            (DownloadStatus::Completed, DownloadStatus::Completed) => true,
            (DownloadStatus::Failed(x), DownloadStatus::Failed(y)) => *x == *y,
            _ => false,
        }
    }
}

impl vstd::std_specs::cmp::PartialEqSpecImpl for DownloadStatus {
    open spec fn obeys_eq_spec() -> bool {
        true
    }

    open spec fn eq_spec(&self, other: &Self) -> bool {
        status_eq(*self, *other)
    }
}

impl DownloadStatus {
    /// A task counts as active exactly while it is downloading.
    pub open spec fn spec_is_active(&self) -> bool {
        self is Downloading
    }

    #[verifier::when_used_as_spec(spec_is_active)]
    pub fn is_active(&self) -> (r: bool)
        ensures
            r == self.spec_is_active(),
    {
        matches!(self, DownloadStatus::Downloading)
    }

    /// Terminal statuses: no further transition is permitted.
    pub open spec fn spec_is_finished(&self) -> bool {
        self is Completed || self is Failed
    }

    #[verifier::when_used_as_spec(spec_is_finished)]
    pub fn is_finished(&self) -> (r: bool)
        ensures
            r == self.spec_is_finished(),
    {
        matches!(self, DownloadStatus::Completed | DownloadStatus::Failed(_))
    }

    /// Resuming is permitted from a pause or from a failure (retry).
    pub open spec fn spec_can_resume(&self) -> bool {
        self is Paused || self is Failed
    }

    #[verifier::when_used_as_spec(spec_can_resume)]
    pub fn can_resume(&self) -> (r: bool)
        ensures
            r == self.spec_can_resume(),
    {
        matches!(self, DownloadStatus::Paused | DownloadStatus::Failed(_))
    }

    /// Pausing is permitted while a task is downloading or still queued.
    pub open spec fn spec_can_pause(&self) -> bool {
        self is Downloading || self is Waiting
    }

    #[verifier::when_used_as_spec(spec_can_pause)]
    pub fn can_pause(&self) -> (r: bool)
        ensures
            r == self.spec_can_pause(),
    {
        matches!(self, DownloadStatus::Downloading | DownloadStatus::Waiting)
    }
}

impl Clone for DownloadStatus {
    /// Cloning preserves the status value.
    fn clone(&self) -> (r: Self)
        ensures
            r == *self,
    {
        match self {
            DownloadStatus::Waiting => DownloadStatus::Waiting,
            DownloadStatus::Downloading => DownloadStatus::Downloading,
            DownloadStatus::Paused => DownloadStatus::Paused,
            DownloadStatus::Completed => DownloadStatus::Completed,
            DownloadStatus::Failed(x) => DownloadStatus::Failed(x.clone()),
        }
    }
}

} // verus!
