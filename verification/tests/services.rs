//! The duplicate-detection services before a store is attached.

use burncloud_download::{
    BackgroundHashCalculator, DefaultDuplicateDetector, DefaultTaskRepository, DuplicatePolicy,
    TaskId, TaskValidation,
};

#[test]
fn detector_fingerprints_and_finds_nothing_yet() {
    let detector = DefaultDuplicateDetector::new();
    let res = detector
        .find_duplicate("https://example.com/f.zip?b=2&a=1", "/d/f.zip")
        .unwrap();
    assert!(res.is_not_found());
    assert_eq!(res.task_id(), None);

    assert!(detector.find_duplicate("not-a-url", "/d/f.zip").is_err());

    let res = detector
        .apply_policy("https://example.com/f.zip", "/d/f.zip", DuplicatePolicy::FailIfDuplicate)
        .unwrap();
    assert!(res.is_not_found());

    assert!(detector.find_by_url_hash(&"a".repeat(64)).unwrap().is_empty());
    assert!(detector
        .find_by_url_and_path("https://example.com/f.zip", "/d/f.zip")
        .unwrap()
        .is_none());
    assert!(detector
        .get_candidates("https://example.com/f.zip", "/d/f.zip")
        .unwrap()
        .is_empty());
}

#[test]
fn repository_and_validation_stubs_accept_everything() {
    let repo = DefaultTaskRepository::new();
    assert!(repo.find_by_url_hash_and_path(&"a".repeat(64), "/d/f").unwrap().is_empty());
    assert!(repo.find_by_file_hash(&"b".repeat(64)).unwrap().is_empty());
    assert!(repo
        .update_duplicate_fields(&TaskId::new(), &"a".repeat(64), None, Some(10))
        .is_ok());

    let validation = TaskValidation::new();
    assert!(validation.verify_task_validity(&TaskId::new()).unwrap());
    assert!(validation.verify_source_accessibility("https://example.com").unwrap());
    assert!(validation.verify_file_integrity(&TaskId::new()).unwrap());

    let hasher = BackgroundHashCalculator::new();
    assert!(hasher.queue_calculation(TaskId::new(), "/d/f.zip").is_ok());
}
