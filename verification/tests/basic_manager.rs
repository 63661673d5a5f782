//! The simulating manager end to end, and the simulated-progress formula on
//! exact values.

use burncloud_download::manager::{mock_progress_at, MOCK_SPEED_BPS, MOCK_TOTAL_BYTES};
use burncloud_download::{
    BasicDownloadManager, DownloadError, DownloadStatus, DownloadTask, DuplicatePolicy,
};

#[test]
fn mock_progress_formula_exact_values() {
    // 5 seconds at 100 B/s of a 1000-byte file
    let p = mock_progress_at(0, 1000, 100, 5000);
    assert_eq!(p.downloaded_bytes, 500);
    assert_eq!(p.total_bytes, Some(1000));
    assert_eq!(p.speed_bps, 100);
    assert_eq!(p.eta_seconds, Some(5));

    // capped at the total once enough time has passed
    let p = mock_progress_at(0, 1000, 100, 60_000);
    assert_eq!(p.downloaded_bytes, 1000);
    assert_eq!(p.eta_seconds, None);

    // a clock reading before the start counts as no time elapsed
    let p = mock_progress_at(9000, 1000, 100, 100);
    assert_eq!(p.downloaded_bytes, 0);

    // zero speed never divides
    let p = mock_progress_at(0, 1000, 0, 5000);
    assert_eq!(p.downloaded_bytes, 0);
    assert_eq!(p.eta_seconds, None);
}

#[test]
fn basic_add_download_starts_immediately() {
    let mut manager = BasicDownloadManager::new();
    let task_id = manager
        .add_download("https://example.com/file.zip".to_string(), "/tmp/file.zip".to_string())
        .unwrap();

    let task = manager.get_task(task_id).unwrap();
    assert_eq!(task.url, "https://example.com/file.zip");
    assert_eq!(task.status, DownloadStatus::Downloading);
}

#[test]
fn basic_progress_tracking_reports_simulation() {
    let mut manager = BasicDownloadManager::new();
    let task_id = manager
        .add_download("https://example.com/file.zip".to_string(), "/tmp/file.zip".to_string())
        .unwrap();

    let progress = manager.get_progress(task_id).unwrap();
    assert_eq!(progress.total_bytes, Some(MOCK_TOTAL_BYTES));
    assert_eq!(progress.speed_bps, MOCK_SPEED_BPS);
    if let Some(total) = progress.total_bytes {
        assert!(progress.downloaded_bytes <= total);
    }
}

#[test]
fn basic_pause_resume_round_trip() {
    let mut manager = BasicDownloadManager::new();
    let task_id = manager
        .add_download("https://example.com/file.zip".to_string(), "/tmp/file.zip".to_string())
        .unwrap();

    manager.pause_download(task_id).unwrap();
    assert_eq!(manager.get_task(task_id).unwrap().status, DownloadStatus::Paused);

    manager.resume_download(task_id).unwrap();
    assert_eq!(manager.get_task(task_id).unwrap().status, DownloadStatus::Downloading);
}

#[test]
fn basic_cancel_removes_task() {
    let mut manager = BasicDownloadManager::new();
    let task_id = manager
        .add_download("https://example.com/file.zip".to_string(), "/tmp/file.zip".to_string())
        .unwrap();

    manager.cancel_download(task_id).unwrap();
    assert!(manager.get_task(task_id).is_err());
    // cancelling again still succeeds
    assert!(manager.cancel_download(task_id).is_ok());
}

#[test]
fn basic_list_tasks_holds_every_task() {
    let mut manager = BasicDownloadManager::new();
    let id1 = manager
        .add_download("https://example.com/file1.zip".to_string(), "/tmp/file1.zip".to_string())
        .unwrap();
    let id2 = manager
        .add_download("https://example.com/file2.zip".to_string(), "/tmp/file2.zip".to_string())
        .unwrap();

    let tasks = manager.list_tasks().unwrap();
    assert_eq!(tasks.len(), 2);
    let ids: Vec<_> = tasks.iter().map(|t| t.id).collect();
    assert!(ids.contains(&id1));
    assert!(ids.contains(&id2));
}

#[test]
fn basic_active_count_follows_statuses() {
    let mut manager = BasicDownloadManager::new();
    assert_eq!(manager.active_download_count().unwrap(), 0);

    let _id1 = manager
        .add_download("https://example.com/file1.zip".to_string(), "/tmp/file1.zip".to_string())
        .unwrap();
    let id2 = manager
        .add_download("https://example.com/file2.zip".to_string(), "/tmp/file2.zip".to_string())
        .unwrap();
    assert_eq!(manager.active_download_count().unwrap(), 2);

    manager.pause_download(id2).unwrap();
    assert_eq!(manager.active_download_count().unwrap(), 1);
}

#[test]
fn basic_duplicate_policy_matches_raw_text() {
    let mut manager = BasicDownloadManager::new();
    let first = manager
        .add_download_with_policy(
            "https://example.com/file.zip",
            "/tmp/file.zip",
            DuplicatePolicy::ReuseExisting,
        )
        .unwrap();
    let first_id = first.task_id().unwrap();

    let second = manager
        .add_download_with_policy(
            "https://example.com/file.zip",
            "/tmp/file.zip",
            DuplicatePolicy::ReuseExisting,
        )
        .unwrap();
    assert_eq!(second.task_id(), Some(first_id));

    let rejected = manager.add_download_with_policy(
        "https://example.com/file.zip",
        "/tmp/file.zip",
        DuplicatePolicy::FailIfDuplicate,
    );
    assert!(matches!(rejected, Err(DownloadError::PolicyViolation { .. })));

    let candidates = manager
        .get_duplicate_candidates("https://example.com/file.zip", "/tmp/file.zip")
        .unwrap();
    assert_eq!(candidates, vec![first_id]);
    assert!(manager.verify_task_validity(&first_id).unwrap());
}

#[test]
fn basic_pause_guards_match_statuses() {
    let mut manager = BasicDownloadManager::new();
    let id = manager
        .add_download("https://example.com/file.zip".to_string(), "/tmp/file.zip".to_string())
        .unwrap();
    manager.pause_download(id).unwrap();
    assert!(matches!(
        manager.pause_download(id),
        Err(DownloadError::InvalidStatusTransition)
    ));
    let unknown = burncloud_download::TaskId::new();
    assert!(matches!(manager.pause_download(unknown), Err(DownloadError::TaskNotFound(_))));
}

#[test]
fn basic_admit_download_succeeds_once_per_identifier() {
    let mut manager = BasicDownloadManager::new();
    let mut task = DownloadTask::new(
        "https://example.com/one.zip".to_string(),
        "/tmp/one.zip".to_string(),
    );
    task.update_status(DownloadStatus::Downloading);
    let id = task.id;
    manager.admit_download(task).unwrap();
    assert_eq!(manager.get_task(id).unwrap().status, DownloadStatus::Downloading);

    // a second task under the same identifier is refused, and nothing changes
    let mut clash = DownloadTask::new(
        "https://example.com/other.zip".to_string(),
        "/tmp/other.zip".to_string(),
    );
    clash.update_status(DownloadStatus::Downloading);
    clash.id = id;
    assert!(matches!(manager.admit_download(clash), Err(DownloadError::General(_))));
    assert_eq!(manager.list_tasks().unwrap().len(), 1);
    assert_eq!(manager.get_task(id).unwrap().url, "https://example.com/one.zip");
}
