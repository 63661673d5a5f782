//! Recovery and ticker decisions on concrete values, including the recovery
//! scenario: a stored non-terminal task is re-submitted; a terminal one is
//! kept as a record and never handed to the engine.

use burncloud_download::persistence::{
    apply_recovery_outcome, recovery_action, restore_disposition_paused, stored_task_validity,
    tick_plan, RecoveryAction, PROGRESS_SAVE_INTERVAL_SECS,
};
use burncloud_download::scheduler::TaskScheduler;
use burncloud_download::{DownloadStatus, DownloadTask, TaskId};

fn task_with_status(status: DownloadStatus) -> DownloadTask {
    let mut t = DownloadTask::new(
        "https://example.com/f.zip".to_string(),
        "/d/f.zip".to_string(),
    );
    t.update_status(status);
    t
}

#[test]
fn recovery_resubmits_only_non_terminal_tasks() {
    assert_eq!(
        recovery_action(&task_with_status(DownloadStatus::Downloading)),
        RecoveryAction::Resubmit
    );
    assert_eq!(
        recovery_action(&task_with_status(DownloadStatus::Waiting)),
        RecoveryAction::Resubmit
    );
    assert_eq!(
        recovery_action(&task_with_status(DownloadStatus::Paused)),
        RecoveryAction::Resubmit
    );
    assert_eq!(
        recovery_action(&task_with_status(DownloadStatus::Completed)),
        RecoveryAction::Skip
    );
    assert_eq!(
        recovery_action(&task_with_status(DownloadStatus::Failed("x".to_string()))),
        RecoveryAction::Skip
    );
}

#[test]
fn recovery_keeps_paused_disposition() {
    assert!(restore_disposition_paused(&task_with_status(DownloadStatus::Paused)));
    assert!(!restore_disposition_paused(&task_with_status(DownloadStatus::Downloading)));
}

#[test]
fn recovery_outcome_records_handle_or_marks_failed() {
    let task = task_with_status(DownloadStatus::Downloading);

    let (restored, handle) = apply_recovery_outcome(&task, Ok("gid-7".to_string()));
    assert_eq!(restored.status, DownloadStatus::Downloading);
    assert_eq!(restored.id, task.id);
    assert_eq!(handle, Some("gid-7".to_string()));

    let (tainted, none) = apply_recovery_outcome(&task, Err("engine unreachable".to_string()));
    assert_eq!(none, None);
    assert_eq!(tainted.id, task.id);
    match tainted.status {
        DownloadStatus::Failed(msg) => {
            assert_eq!(msg, "recovery failed: engine unreachable");
        }
        other => panic!("expected a failure, got {:?}", other),
    }
}

#[test]
fn scenario_recovery_of_seeded_store() {
    // a store holding one downloading and one completed task
    let downloading = task_with_status(DownloadStatus::Downloading);
    let completed = task_with_status(DownloadStatus::Completed);
    let store = vec![downloading, completed];

    let mut recovered = Vec::new();
    let mut submitted_to_engine = Vec::new();
    for task in &store {
        match recovery_action(task) {
            RecoveryAction::Resubmit => {
                // the engine answers with a fresh handle
                submitted_to_engine.push(task.id);
                let (restored, handle) = apply_recovery_outcome(task, Ok("handle-1".to_string()));
                assert!(handle.is_some());
                recovered.push(restored);
            }
            RecoveryAction::Skip => {
                recovered.push(task.clone());
            }
        }
    }

    // the downloading task re-appears with its status; the completed one is
    // listed but never handed to the engine
    assert_eq!(recovered.len(), 2);
    assert_eq!(recovered[0].status, DownloadStatus::Downloading);
    assert_eq!(recovered[1].status, DownloadStatus::Completed);
    assert_eq!(submitted_to_engine, vec![store[0].id]);
}

#[test]
fn tick_plan_covers_every_handle_and_flags_fifth_ticks() {
    let handles = vec![
        (TaskId::new(), "g1".to_string()),
        (TaskId::new(), "g2".to_string()),
        (TaskId::new(), "g3".to_string()),
    ];

    let plan = tick_plan(7, &handles);
    assert_eq!(plan.len(), 3);
    for (k, (id, save_progress)) in plan.iter().enumerate() {
        assert_eq!(*id, handles[k].0);
        assert!(!save_progress);
    }

    let plan = tick_plan(2 * PROGRESS_SAVE_INTERVAL_SECS, &handles);
    assert!(plan.iter().all(|(_, save_progress)| *save_progress));
}

#[test]
fn stored_task_validity_requires_file_for_completed() {
    assert!(stored_task_validity(&DownloadStatus::Completed, true));
    assert!(!stored_task_validity(&DownloadStatus::Completed, false));
    assert!(stored_task_validity(&DownloadStatus::Paused, false));
    assert!(stored_task_validity(&DownloadStatus::Downloading, false));
}

#[test]
fn scheduler_decides_by_free_slots_only() {
    let t = task_with_status(DownloadStatus::Waiting);
    assert!(TaskScheduler::should_schedule_task(&t, 2, 3));
    assert!(!TaskScheduler::should_schedule_task(&t, 3, 3));
    assert_eq!(TaskScheduler::get_task_priority(&t), 0);
}
