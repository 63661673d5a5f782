//! Task identifiers, tasks, statuses and progress snapshots on concrete
//! values.

use burncloud_download::{DownloadError, DownloadProgress, DownloadStatus, DownloadTask, TaskId, TaskStatus, TaskValidator};

#[test]
fn test_task_id_generation() {
    let id1 = TaskId::new();
    let id2 = TaskId::new();
    assert_ne!(id1, id2);
}

#[test]
fn test_task_id_generate() {
    let id1 = TaskId::generate();
    let id2 = TaskId::generate();
    assert_ne!(id1, id2);
}

#[test]
fn test_task_id_from_string() {
    let original_id = TaskId::new();
    let id_string = original_id.to_string();
    let parsed_id = TaskId::from_string(&id_string).unwrap();
    assert_eq!(original_id, parsed_id);
}

#[test]
fn test_task_id_from_invalid_string() {
    let result = TaskId::from_string("invalid-uuid");
    assert!(result.is_err());
}

#[test]
fn test_task_id_to_string() {
    let id = TaskId::new();
    let id_string = id.to_string();
    assert!(!id_string.is_empty());
    assert!(uuid::Uuid::parse_str(&id_string).is_ok());
}

#[test]
fn test_task_id_round_trip() {
    let original_id = TaskId::new();
    let id_string = original_id.to_string();
    let parsed_id = TaskId::from_string(&id_string).unwrap();
    assert_eq!(original_id, parsed_id);
    assert_eq!(original_id.to_string(), parsed_id.to_string());
}

#[test]
fn test_download_task_creation() {
    let task = DownloadTask::new(
        "https://example.com/file.zip".to_string(),
        "/downloads/file.zip".to_string(),
    );

    assert_eq!(task.url, "https://example.com/file.zip");
    assert_eq!(task.target_path, "/downloads/file.zip");
    assert_eq!(task.status, DownloadStatus::Waiting);
}

#[test]
fn test_download_status_is_active() {
    assert!(DownloadStatus::Downloading.is_active());
    assert!(!DownloadStatus::Waiting.is_active());
    assert!(!DownloadStatus::Paused.is_active());
    assert!(!DownloadStatus::Completed.is_active());
    assert!(!DownloadStatus::Failed("error".to_string()).is_active());
}

#[test]
fn test_download_status_is_finished() {
    assert!(!DownloadStatus::Downloading.is_finished());
    assert!(!DownloadStatus::Waiting.is_finished());
    assert!(!DownloadStatus::Paused.is_finished());
    assert!(DownloadStatus::Completed.is_finished());
    assert!(DownloadStatus::Failed("error".to_string()).is_finished());
}

#[test]
fn test_download_status_can_resume() {
    assert!(!DownloadStatus::Downloading.can_resume());
    assert!(!DownloadStatus::Waiting.can_resume());
    assert!(DownloadStatus::Paused.can_resume());
    assert!(!DownloadStatus::Completed.can_resume());
    assert!(DownloadStatus::Failed("error".to_string()).can_resume());
}

#[test]
fn test_download_status_can_pause() {
    assert!(DownloadStatus::Downloading.can_pause());
    assert!(DownloadStatus::Waiting.can_pause());
    assert!(!DownloadStatus::Paused.can_pause());
    assert!(!DownloadStatus::Completed.can_pause());
    assert!(!DownloadStatus::Failed("error".to_string()).can_pause());
}

#[test]
fn test_download_progress_new() {
    let progress = DownloadProgress::new();
    assert_eq!(progress.downloaded_bytes, 0);
    assert_eq!(progress.total_bytes, None);
    assert_eq!(progress.speed_bps, 0);
    assert_eq!(progress.eta_seconds, None);
}

#[test]
fn test_download_progress_default() {
    let progress = DownloadProgress::default();
    assert_eq!(progress.downloaded_bytes, 0);
    assert_eq!(progress.total_bytes, None);
    assert_eq!(progress.speed_bps, 0);
    assert_eq!(progress.eta_seconds, None);
}

#[test]
fn download_error_messages_carry_their_parts() {
    let id = TaskId::new();
    let msg = DownloadError::TaskNotFound(id).message();
    assert_eq!(msg, format!("Task with ID {} not found", id.to_string()));
    assert_eq!(
        DownloadError::InvalidUrl("x".to_string()).message(),
        "Invalid URL: x"
    );
    assert_eq!(
        DownloadError::InvalidStatusTransition.message(),
        "Invalid task status transition"
    );
}

#[test]
fn validation_error_messages_carry_their_parts() {
    let err = TaskValidator::validate_url_hash("xyz").unwrap_err();
    assert_eq!(
        err.message(),
        "Invalid URL hash 'xyz': expected 64-character Blake3 hex string"
    );
}

#[test]
fn task_validator_checks_hash_and_transitions() {
    assert!(TaskValidator::validate_url_hash(&"a".repeat(64)).is_ok());
    assert!(TaskValidator::validate_url_hash("abc").is_err());
    assert!(TaskValidator::validate_task_id(&TaskId::new()).is_ok());

    let id = TaskId::new();
    assert!(
        TaskValidator::validate_status_transition(&TaskStatus::Waiting, &TaskStatus::Duplicate(id))
            .is_ok()
    );
    assert!(TaskValidator::validate_status_transition(
        &TaskStatus::Downloading,
        &TaskStatus::Duplicate(id)
    )
    .is_err());
    assert!(TaskValidator::validate_status_transition(
        &TaskStatus::Completed,
        &TaskStatus::Waiting
    )
    .is_ok());
}
