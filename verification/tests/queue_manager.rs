//! The queue manager end to end: admission, promotion, pause/resume, the
//! duplicate gate and its policies, and event delivery order.

use burncloud_download::{
    DownloadError, DownloadEvent, DownloadProgress, DownloadStatus, DuplicatePolicy,
    DuplicateResult, TaskQueueManager,
};

fn status_changes(events: &[DownloadEvent]) -> Vec<(DownloadStatus, DownloadStatus)> {
    events
        .iter()
        .filter_map(|e| match e {
            DownloadEvent::StatusChanged { old_status, new_status, .. } => {
                Some((old_status.clone(), new_status.clone()))
            }
            _ => None,
        })
        .collect()
}

#[test]
fn queue_add_task_starts_immediately_when_slot_free() {
    let mut manager = TaskQueueManager::new();
    let (task_id, events) = manager
        .add_task(
            "https://example.com/file.zip".to_string(),
            "/downloads/file.zip".to_string(),
        )
        .unwrap();

    let task = manager.get_task(task_id).unwrap();
    assert_eq!(task.url, "https://example.com/file.zip");
    assert_eq!(task.status, DownloadStatus::Downloading);
    assert_eq!(status_changes(&events).len(), 1);
}

#[test]
fn queue_concurrency_limit_queues_beyond_capacity() {
    let mut manager = TaskQueueManager::new();

    let mut task_ids = Vec::new();
    for i in 0..5 {
        let (task_id, _) = manager
            .add_task(
                format!("https://example.com/file{}.zip", i),
                format!("/downloads/file{}.zip", i),
            )
            .unwrap();
        task_ids.push(task_id);
    }

    assert_eq!(manager.active_download_count(), 3);

    for (i, id) in task_ids.iter().enumerate().take(3) {
        let task = manager.get_task(*id).unwrap();
        assert_eq!(task.status, DownloadStatus::Downloading, "Task {} should be downloading", i);
    }
    for id in task_ids.iter().skip(3) {
        let task = manager.get_task(*id).unwrap();
        assert_eq!(task.status, DownloadStatus::Waiting);
    }
}

#[test]
fn scenario_admission_and_promotion() {
    // capacity 3, five submissions differing only in filename
    let mut manager = TaskQueueManager::new();
    let mut ids = Vec::new();
    for i in 0..5 {
        let (id, _) = manager
            .add_task(
                format!("https://example.com/part{}.bin", i),
                format!("/d/part{}.bin", i),
            )
            .unwrap();
        ids.push(id);
    }
    for id in &ids[0..3] {
        assert_eq!(manager.get_task(*id).unwrap().status, DownloadStatus::Downloading);
    }
    for id in &ids[3..5] {
        assert_eq!(manager.get_task(*id).unwrap().status, DownloadStatus::Waiting);
    }

    // completing the first admitted task promotes exactly the first waiter
    manager.complete_task(ids[0]).unwrap();
    assert_eq!(manager.get_task(ids[3]).unwrap().status, DownloadStatus::Downloading);
    assert_eq!(manager.get_task(ids[4]).unwrap().status, DownloadStatus::Waiting);
    assert_eq!(manager.active_download_count(), 3);
}

#[test]
fn scenario_pause_resume_round_trip() {
    let mut manager = TaskQueueManager::new();
    let (id, submit_events) = manager
        .add_task("https://example.com/f.zip".to_string(), "/d/f.zip".to_string())
        .unwrap();
    let pause_events = manager.pause_task(id).unwrap();
    assert_eq!(manager.get_task(id).unwrap().status, DownloadStatus::Paused);
    let resume_events = manager.resume_task(id).unwrap();
    assert_eq!(manager.get_task(id).unwrap().status, DownloadStatus::Downloading);

    let mut all = Vec::new();
    all.extend(submit_events);
    all.extend(pause_events);
    all.extend(resume_events);
    let seq = status_changes(&all);
    assert_eq!(
        seq,
        vec![
            (DownloadStatus::Waiting, DownloadStatus::Downloading),
            (DownloadStatus::Downloading, DownloadStatus::Paused),
            (DownloadStatus::Paused, DownloadStatus::Downloading),
        ]
    );
}

#[test]
fn scenario_duplicate_collapse() {
    let mut manager = TaskQueueManager::new();
    let (first, _) = manager
        .add_download_with_policy("https://ex.com/f?b=2&a=1#x", "/d/f", DuplicatePolicy::ReuseExisting)
        .unwrap();
    let first_id = first.task_id().unwrap();
    let before = manager.list_tasks().unwrap().len();

    let (second, _) = manager
        .add_download_with_policy("https://ex.com/f?a=1&b=2", "/d/f", DuplicatePolicy::ReuseExisting)
        .unwrap();
    assert_eq!(second.task_id(), Some(first_id));
    assert!(second.is_existing_task());
    assert_eq!(manager.list_tasks().unwrap().len(), before);
}

#[test]
fn scenario_policy_rejection() {
    let mut manager = TaskQueueManager::new();
    let (first, _) = manager
        .add_download_with_policy(
            "https://example.com/f.zip",
            "/d/f.zip",
            DuplicatePolicy::FailIfDuplicate,
        )
        .unwrap();
    let first_id = first.task_id().unwrap();

    let second = manager.add_download_with_policy(
        "https://example.com/f.zip",
        "/d/f.zip",
        DuplicatePolicy::FailIfDuplicate,
    );
    match second {
        Err(DownloadError::PolicyViolation { task_id, .. }) => assert_eq!(task_id, first_id),
        other => panic!("expected a policy violation, got {:?}", other.is_ok()),
    }
}

#[test]
fn gate_reuse_resumes_paused_duplicate() {
    let mut manager = TaskQueueManager::new();
    let (res, _) = manager
        .add_download_with_policy("https://example.com/p.zip", "/d/p.zip", DuplicatePolicy::ReuseExisting)
        .unwrap();
    let id = res.task_id().unwrap();
    manager.pause_task(id).unwrap();
    assert_eq!(manager.get_task(id).unwrap().status, DownloadStatus::Paused);

    let (again, events) = manager
        .add_download_with_policy("https://example.com/p.zip", "/d/p.zip", DuplicatePolicy::ReuseExisting)
        .unwrap();
    assert_eq!(again.task_id(), Some(id));
    assert_eq!(manager.get_task(id).unwrap().status, DownloadStatus::Downloading);
    assert_eq!(status_changes(&events).len(), 1);
}

#[test]
fn gate_allow_duplicate_admits_new() {
    let mut manager = TaskQueueManager::new();
    let (first, _) = manager
        .add_download_with_policy("https://example.com/d.zip", "/d/d.zip", DuplicatePolicy::AllowDuplicate)
        .unwrap();
    let (second, _) = manager
        .add_download_with_policy("https://example.com/d.zip", "/d/d.zip", DuplicatePolicy::AllowDuplicate)
        .unwrap();
    assert!(second.is_new_task());
    assert_ne!(first.task_id(), second.task_id());
    assert_eq!(manager.list_tasks().unwrap().len(), 2);
}

#[test]
fn gate_prompt_user_surfaces_candidates() {
    let mut manager = TaskQueueManager::new();
    let (first, _) = manager
        .add_download_with_policy("https://example.com/c.zip", "/d/c.zip", DuplicatePolicy::ReuseExisting)
        .unwrap();
    let first_id = first.task_id().unwrap();
    let (res, _) = manager
        .add_download_with_policy("https://example.com/c.zip", "/d/c.zip", DuplicatePolicy::PromptUser)
        .unwrap();
    match res {
        DuplicateResult::RequiresDecision { candidates, suggested_action } => {
            assert_eq!(candidates, vec![first_id]);
            assert_eq!(suggested_action.task_id(), Some(first_id));
        }
        other => panic!("expected a decision request, got task id {:?}", other.task_id()),
    }
}

#[test]
fn gate_invalid_url_is_rejected() {
    let mut manager = TaskQueueManager::new();
    let r = manager.add_download_with_policy("not-a-url", "/d/f", DuplicatePolicy::ReuseExisting);
    assert!(matches!(r, Err(DownloadError::InvalidUrl(_))));
    assert!(manager.find_duplicate_task("not-a-url", "/d/f").is_err());
}

#[test]
fn cancel_is_idempotent_and_never_fails() {
    let mut manager = TaskQueueManager::new();
    let (id, _) = manager
        .add_task("https://example.com/x.zip".to_string(), "/d/x.zip".to_string())
        .unwrap();

    let first = manager.cancel_task(id);
    assert!(first.is_ok());
    assert!(manager.get_task(id).is_err());
    let after_once = manager.list_tasks().unwrap().len();

    for _ in 0..3 {
        let again = manager.cancel_task(id);
        assert!(again.is_ok());
        assert_eq!(again.unwrap().len(), 0);
        assert_eq!(manager.list_tasks().unwrap().len(), after_once);
    }
}

#[test]
fn cancel_promotes_next_waiter() {
    let mut manager = TaskQueueManager::new();
    let mut ids = Vec::new();
    for i in 0..4 {
        let (id, _) = manager
            .add_task(format!("https://example.com/q{}.bin", i), format!("/d/q{}.bin", i))
            .unwrap();
        ids.push(id);
    }
    assert_eq!(manager.get_task(ids[3]).unwrap().status, DownloadStatus::Waiting);
    let events = manager.cancel_task(ids[1]).unwrap();
    assert_eq!(manager.get_task(ids[3]).unwrap().status, DownloadStatus::Downloading);
    assert_eq!(status_changes(&events).len(), 1);
    assert_eq!(manager.active_download_count(), 3);
}

#[test]
fn fifo_order_of_promotions() {
    let mut manager = TaskQueueManager::with_capacity(1);
    let (a, _) = manager.add_task("https://e.com/a".to_string(), "/d/a".to_string()).unwrap();
    let (b, _) = manager.add_task("https://e.com/b".to_string(), "/d/b".to_string()).unwrap();
    let (c, _) = manager.add_task("https://e.com/c".to_string(), "/d/c".to_string()).unwrap();

    assert_eq!(manager.get_task(a).unwrap().status, DownloadStatus::Downloading);
    manager.complete_task(a).unwrap();
    assert_eq!(manager.get_task(b).unwrap().status, DownloadStatus::Downloading);
    assert_eq!(manager.get_task(c).unwrap().status, DownloadStatus::Waiting);
    manager.complete_task(b).unwrap();
    assert_eq!(manager.get_task(c).unwrap().status, DownloadStatus::Downloading);
}

#[test]
fn fail_task_reports_reason_and_frees_slot() {
    let mut manager = TaskQueueManager::new();
    let (id, _) = manager
        .add_task("https://example.com/f.zip".to_string(), "/d/f.zip".to_string())
        .unwrap();
    let events = manager.fail_task(id, "Connection error".to_string()).unwrap();

    let task = manager.get_task(id).unwrap();
    assert!(matches!(task.status, DownloadStatus::Failed(_)));
    assert!(events.iter().any(|e| matches!(e, DownloadEvent::Failed { error, .. } if error == "Connection error")));
    assert_eq!(manager.active_download_count(), 0);
}

#[test]
fn completed_events_follow_final_state() {
    let mut manager = TaskQueueManager::new();
    let (id, _) = manager
        .add_task("https://example.com/e.zip".to_string(), "/d/e.zip".to_string())
        .unwrap();
    let events = manager.complete_task(id).unwrap();
    // every status-change event names the status the task now holds
    for e in &events {
        if let DownloadEvent::StatusChanged { task_id, new_status, .. } = e {
            assert_eq!(&manager.get_task(*task_id).unwrap().status, new_status);
        }
    }
    assert!(events.iter().any(|e| matches!(e, DownloadEvent::Completed { .. })));
}

#[test]
fn scenario_progress_monotonicity() {
    let mut manager = TaskQueueManager::new();
    let (id, _) = manager
        .add_task("https://example.com/m.zip".to_string(), "/d/m.zip".to_string())
        .unwrap();

    let snapshots = [(100u64, 1000u64), (500, 1000), (500, 1000), (1000, 1000)];
    let mut last: u64 = 0;
    for (done, total) in snapshots {
        let p = DownloadProgress {
            downloaded_bytes: done,
            total_bytes: Some(total),
            speed_bps: 100,
            eta_seconds: None,
        };
        manager.update_progress(id, p).unwrap();
        let seen = manager.get_progress(id).unwrap();
        assert!(seen.downloaded_bytes >= last);
        last = seen.downloaded_bytes;
    }
    assert_eq!(last, 1000);
}

#[test]
fn progress_of_unknown_task_is_rejected() {
    let mut manager = TaskQueueManager::new();
    let (id, _) = manager
        .add_task("https://example.com/y.zip".to_string(), "/d/y.zip".to_string())
        .unwrap();
    // a fresh task reports the empty snapshot
    let p = manager.get_progress(id).unwrap();
    assert_eq!(p.downloaded_bytes, 0);
    manager.cancel_task(id).unwrap();
    assert!(matches!(manager.get_progress(id), Err(DownloadError::TaskNotFound(_))));
    assert!(matches!(
        manager.update_progress(id, DownloadProgress::new()),
        Err(DownloadError::TaskNotFound(_))
    ));
}

#[test]
fn pause_guard_rejects_wrong_states() {
    let mut manager = TaskQueueManager::new();
    let (id, _) = manager
        .add_task("https://example.com/g.zip".to_string(), "/d/g.zip".to_string())
        .unwrap();
    manager.pause_task(id).unwrap();
    assert!(matches!(manager.pause_task(id), Err(DownloadError::InvalidStatusTransition)));
    assert!(matches!(manager.resume_task(id), Ok(_)));
    assert!(matches!(manager.resume_task(id), Err(DownloadError::InvalidStatusTransition)));
    let unknown = burncloud_download::TaskId::new();
    assert!(matches!(manager.pause_task(unknown), Err(DownloadError::TaskNotFound(_))));
}

#[test]
fn duplicate_candidates_lists_all_matches() {
    let mut manager = TaskQueueManager::new();
    let (first, _) = manager
        .add_download_with_policy("https://example.com/z.zip", "/d/z.zip", DuplicatePolicy::AllowDuplicate)
        .unwrap();
    let (second, _) = manager
        .add_download_with_policy("https://example.com/z.zip", "/d/z.zip", DuplicatePolicy::AllowDuplicate)
        .unwrap();
    let candidates = manager
        .get_duplicate_candidates("https://example.com/z.zip#frag", "/d/z.zip")
        .unwrap();
    assert_eq!(candidates, vec![first.task_id().unwrap(), second.task_id().unwrap()]);
    assert!(manager.verify_task_validity(&candidates[0]).unwrap());
}
