//! Policies for handling duplicate downloads.

use vstd::prelude::*;
use crate::task_status::TaskStatus;

verus! {

/// What to do when a submitted download duplicates a known task.
#[derive(Debug, Clone, Copy, PartialEq, Eq, Structural)]
pub enum DuplicatePolicy {
    /// Reuse the existing task regardless of its status (the default).
    ReuseExisting,
    /// Always create a new task, ignoring duplicates.
    AllowDuplicate,
    /// Ask the caller for a decision when duplicates are found.
    PromptUser,
    /// Reuse only if the existing task is completed.
    ReuseIfComplete,
    /// Reuse only if the existing task is incomplete (to resume it).
    ReuseIfIncomplete,
    /// Fail with an error when a duplicate is found.
    FailIfDuplicate,
}

impl Default for DuplicatePolicy {
    /// The default policy reuses the existing task.
    fn default() -> (r: Self)
        ensures
            r is ReuseExisting,
    {
        DuplicatePolicy::ReuseExisting
    }
}

impl DuplicatePolicy {
    /// Whether this policy reuses an existing task in the given status.
    pub open spec fn spec_allows_reuse(&self, status: &TaskStatus) -> bool {
        match self {
            DuplicatePolicy::ReuseExisting => true,
            DuplicatePolicy::AllowDuplicate => false,
            DuplicatePolicy::PromptUser => false,
            DuplicatePolicy::ReuseIfComplete => *status is Completed,
            DuplicatePolicy::ReuseIfIncomplete => *status is Waiting || *status is Downloading
                || *status is Paused || *status is Failed,
            DuplicatePolicy::FailIfDuplicate => false,
        }
    }

    #[verifier::when_used_as_spec(spec_allows_reuse)]
    pub fn allows_reuse(&self, status: &TaskStatus) -> (r: bool)
        ensures
            r == self.spec_allows_reuse(status),
    {
        match self {
            DuplicatePolicy::ReuseExisting => true,
            DuplicatePolicy::AllowDuplicate => false,
            DuplicatePolicy::PromptUser => false,
            DuplicatePolicy::ReuseIfComplete => matches!(status, TaskStatus::Completed),
            DuplicatePolicy::ReuseIfIncomplete => matches!(
                status,
                TaskStatus::Waiting | TaskStatus::Downloading | TaskStatus::Paused
                    | TaskStatus::Failed(_)
            ),
            DuplicatePolicy::FailIfDuplicate => false,
        }
    }

    /// Whether this policy rejects the submission when a duplicate is found.
    pub open spec fn spec_should_fail_on_duplicate(&self) -> bool {
        self is FailIfDuplicate
    }

    #[verifier::when_used_as_spec(spec_should_fail_on_duplicate)]
    pub fn should_fail_on_duplicate(&self) -> (r: bool)
        ensures
            r == self.spec_should_fail_on_duplicate(),
    {
        matches!(self, DuplicatePolicy::FailIfDuplicate)
    }

    /// Whether this policy asks the caller to decide.
    pub open spec fn spec_requires_user_decision(&self) -> bool {
        self is PromptUser
    }

    #[verifier::when_used_as_spec(spec_requires_user_decision)]
    pub fn requires_user_decision(&self) -> (r: bool)
        ensures
            r == self.spec_requires_user_decision(),
    {
        matches!(self, DuplicatePolicy::PromptUser)
    }
}

} // verus!
