//! Decisions of the persistence loop: what recovery does with each stored
//! task, and what the steady-state ticker persists on each tick. The host
//! process drives the store and the transfer engine with these values.

use vstd::prelude::*;
use vstd::string::StringExecFns;
use crate::status::DownloadStatus;
use crate::task::{DownloadTask, TaskId};

verus! {

/// Seconds between two status polls of the ticker.
pub const STATUS_POLL_INTERVAL_SECS: u64 = 1;

/// Every how many ticks progress is persisted besides the status.
pub const PROGRESS_SAVE_INTERVAL_SECS: u64 = 5;

/// What recovery does with one stored task.
#[derive(Debug, Clone, Copy, PartialEq, Eq, Structural)]
pub enum RecoveryAction {
    /// Re-submit the task to the transfer engine.
    Resubmit,
    /// Leave the task as a record only; it is terminal.
    Skip,
}

/// Recovery decision for one stored task: exactly the non-terminal tasks are
/// re-submitted to the transfer engine; terminal ones never are.
pub fn recovery_action(task: &DownloadTask) -> (r: RecoveryAction)
    ensures
        r is Resubmit <==> !task.status.spec_is_finished(),
{
    if task.status.is_finished() {
        RecoveryAction::Skip
    } else {
        RecoveryAction::Resubmit
    }
}

/// Whether a re-submitted task must be paused again to keep its pre-shutdown
/// disposition.
pub fn restore_disposition_paused(task: &DownloadTask) -> (r: bool)
    ensures
        r == (task.status is Paused),
{
    matches!(task.status, DownloadStatus::Paused)
}

/// Fold the engine's answer into a recovered task: on success the task keeps
/// its stored status and the fresh handle is recorded; on failure the task is
/// marked failed with the reason prefixed by `recovery failed: `, and no
/// handle is recorded. Either way the task survives recovery as a record.
pub fn apply_recovery_outcome(task: &DownloadTask, outcome: Result<String, String>) -> (r: (
    DownloadTask,
    Option<String>,
))
    ensures
        r.0.id == task.id,
        r.0.url == task.url,
        r.0.target_path == task.target_path,
        r.0.created_at == task.created_at,
        outcome matches Ok(handle) ==> r.0 == *task && r.1 == Some(handle),
        outcome matches Err(detail) ==> r.1 is None && (r.0.status matches DownloadStatus::Failed(
            m,
        ) && m@ == "recovery failed: "@ + detail@),
{
    match outcome {
        Ok(handle) => (task.clone(), Some(handle)),
        Err(detail) => {
            let mut failed = task.clone();
            let mut message = "recovery failed: ".to_owned();
            message.append(detail.as_str());
            failed.update_status(DownloadStatus::Failed(message));
            (failed, None)
        },
    }
}

/// Whether a stored task is still valid for reuse: a completed task counts
/// only while its downloaded file still exists; every other stored task
/// counts regardless.
pub fn stored_task_validity(status: &DownloadStatus, file_exists: bool) -> (r: bool)
    ensures
        r == (!(*status is Completed) || file_exists),
{
    if matches!(status, DownloadStatus::Completed) {
        file_exists
    } else {
        true
    }
}

/// The ticker's plan for one tick: every task in the handle map has its
/// status persisted, and every fifth tick its progress too.
pub fn tick_plan(tick: u64, handles: &Vec<(TaskId, String)>) -> (r: Vec<(TaskId, bool)>)
    ensures
        r@.len() == handles@.len(),
        forall|i: int|
            0 <= i < r@.len() ==> (#[trigger] r@[i]).0 == handles@[i].0 && r@[i].1 == (tick
                % PROGRESS_SAVE_INTERVAL_SECS == 0),
{
    let save_progress = tick % PROGRESS_SAVE_INTERVAL_SECS == 0;
    let mut out: Vec<(TaskId, bool)> = Vec::new();
    let mut i: usize = 0;
    while i < handles.len()
        invariant
            i <= handles@.len(),
            out@.len() == i,
            forall|k: int|
                0 <= k < i ==> (#[trigger] out@[k]).0 == handles@[k].0 && out@[k].1 == (tick
                    % PROGRESS_SAVE_INTERVAL_SECS == 0),
            save_progress == (tick % PROGRESS_SAVE_INTERVAL_SECS == 0),
        decreases handles@.len() - i,
    {
        out.push((handles[i].0, save_progress));
        i += 1;
    }
    out
}

} // verus!
