//! Results of duplicate detection and policy application.

use vstd::prelude::*;
use crate::duplicate_reason::DuplicateReason;
use crate::task::TaskId;
use crate::task_status::TaskStatus;

verus! {

/// What duplicate detection decided for a submission.
#[derive(Debug)]
pub enum DuplicateResult {
    /// No duplicate was found; a new task should be created.
    NotFound { url_hash: String, target_path: String },
    /// A duplicate was found; the existing task should be reused.
    Found { task_id: TaskId, reason: DuplicateReason, status: TaskStatus },
    /// A new task was created.
    NewTask(TaskId),
    /// An existing task was found and will be reused.
    ExistingTask { task_id: TaskId, status: TaskStatus, reason: DuplicateReason },
    /// The caller must decide among the candidates.
    RequiresDecision { candidates: Vec<TaskId>, suggested_action: DuplicateAction },
}

/// Suggested resolution of a duplicate submission.
#[derive(Debug, Clone, Copy, PartialEq, Eq, Structural)]
pub enum DuplicateAction {
    /// Resume the given task.
    Resume(TaskId),
    /// Reuse the given task, which already completed.
    Reuse(TaskId),
    /// Retry the given task, which failed.
    Retry(TaskId),
    /// Create a new task.
    CreateNew,
}

/// The task identifier a result points at, if it points at one.
pub open spec fn spec_result_task_id(r: &DuplicateResult) -> Option<TaskId> {
    match r {
        DuplicateResult::NotFound { .. } => None,
        DuplicateResult::Found { task_id, .. } => Some(*task_id),
        DuplicateResult::NewTask(id) => Some(*id),
        DuplicateResult::ExistingTask { task_id, .. } => Some(*task_id),
        DuplicateResult::RequiresDecision { .. } => None,
    }
}

impl DuplicateResult {
    /// The task identifier this result points at, if any.
    pub fn task_id(&self) -> (r: Option<TaskId>)
        ensures
            r == spec_result_task_id(self),
    {
        match self {
            DuplicateResult::NotFound { .. } => None,
            DuplicateResult::Found { task_id, .. } => Some(*task_id),
            DuplicateResult::NewTask(id) => Some(*id),
            DuplicateResult::ExistingTask { task_id, .. } => Some(*task_id),
            DuplicateResult::RequiresDecision { .. } => None,
        }
    }

    /// Whether no duplicate was found.
    pub fn is_not_found(&self) -> (r: bool)
        ensures
            r == (*self is NotFound),
    {
        matches!(self, DuplicateResult::NotFound { .. })
    }

    /// Whether a duplicate was found.
    pub fn is_found(&self) -> (r: bool)
        ensures
            r == (*self is Found),
    {
        matches!(self, DuplicateResult::Found { .. })
    }

    /// Whether a new task was created.
    pub fn is_new_task(&self) -> (r: bool)
        ensures
            r == (*self is NewTask),
    {
        matches!(self, DuplicateResult::NewTask(_))
    }

    /// Whether an existing task will be reused.
    pub fn is_existing_task(&self) -> (r: bool)
        ensures
            r == (*self is ExistingTask),
    {
        matches!(self, DuplicateResult::ExistingTask { .. })
    }

    /// Whether the caller must decide.
    pub fn requires_decision(&self) -> (r: bool)
        ensures
            r == (*self is RequiresDecision),
    {
        matches!(self, DuplicateResult::RequiresDecision { .. })
    }
}

/// The task identifier an action points at, if it points at one.
pub open spec fn spec_action_task_id(a: &DuplicateAction) -> Option<TaskId> {
    match a {
        DuplicateAction::Resume(id) => Some(*id),
        DuplicateAction::Reuse(id) => Some(*id),
        DuplicateAction::Retry(id) => Some(*id),
        DuplicateAction::CreateNew => None,
    }
}

impl DuplicateAction {
    /// The task identifier this action points at, if any.
    pub fn task_id(&self) -> (r: Option<TaskId>)
        ensures
            r == spec_action_task_id(self),
    {
        match self {
            DuplicateAction::Resume(id) => Some(*id),
            DuplicateAction::Reuse(id) => Some(*id),
            DuplicateAction::Retry(id) => Some(*id),
            DuplicateAction::CreateNew => None,
        }
    }
}

} // verus!
