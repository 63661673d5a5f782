//! The composite duplicate-detection key on concrete values.

use burncloud_download::file_identifier::FileIdentifier;
use burncloud_download::services::MockDownloadTask;
use burncloud_download::{DownloadStatus, TaskId};

fn mock_task(url_hash: String, target_path: String) -> MockDownloadTask {
    MockDownloadTask {
        id: TaskId::new(),
        url: String::new(),
        url_hash,
        target_path,
        status: DownloadStatus::Waiting,
    }
}

#[test]
fn file_identifier_test_file_identifier_new() {
    let identifier = FileIdentifier::new(
        "https://example.com/file.zip",
        "/downloads/file.zip",
        Some(1024),
    );

    assert!(!identifier.url_hash.is_empty());
    assert_eq!(identifier.target_path, "/downloads/file.zip");
    assert_eq!(identifier.file_size, Some(1024));
}

#[test]
fn file_identifier_test_url_normalization() {
    let id1 = FileIdentifier::new("https://example.com/file.zip", "/downloads/file.zip", None);
    let id2 = FileIdentifier::new(
        "https://example.com/file.zip?param=value",
        "/downloads/file.zip",
        None,
    );

    assert!(!id1.url_hash.is_empty());
    assert!(!id2.url_hash.is_empty());
    assert_ne!(id1.url_hash, id2.url_hash);
}

#[test]
fn file_identifier_test_matches_task() {
    let identifier = FileIdentifier::new(
        "https://example.com/test.zip",
        "/downloads/test.zip",
        Some(2048),
    );

    let task = mock_task(identifier.url_hash.clone(), identifier.target_path.clone());

    assert!(identifier.matches_task(&task));
}

#[test]
fn file_identifier_test_hash_consistency() {
    let id1 = FileIdentifier::new(
        "https://example.com/consistent.zip",
        "/path/consistent.zip",
        Some(512),
    );
    let id2 = FileIdentifier::new(
        "https://example.com/consistent.zip",
        "/path/consistent.zip",
        Some(512),
    );

    assert_eq!(id1.url_hash, id2.url_hash);
}

#[test]
fn file_identifier_tests_test_file_identifier_new() {
    let identifier = FileIdentifier::new(
        "https://example.com/file.zip",
        "/downloads/file.zip",
        Some(1024),
    );

    assert!(!identifier.url_hash.is_empty());
    assert_eq!(identifier.target_path, "/downloads/file.zip");
    assert_eq!(identifier.file_size, Some(1024));
}

#[test]
fn file_identifier_tests_test_url_normalization() {
    let id1 = FileIdentifier::new("https://example.com/file.zip", "/downloads/file.zip", None);
    let id2 = FileIdentifier::new(
        "https://example.com/file.zip?param=value",
        "/downloads/file.zip",
        None,
    );

    assert!(!id1.url_hash.is_empty());
    assert!(!id2.url_hash.is_empty());
}

#[test]
fn file_identifier_tests_test_matches_task() {
    let identifier = FileIdentifier::new(
        "https://example.com/test.zip",
        "/downloads/test.zip",
        Some(2048),
    );

    let task = mock_task(identifier.url_hash.clone(), identifier.target_path.clone());

    assert!(identifier.matches_task(&task));
}

#[test]
fn file_identifier_tests_test_hash_consistency() {
    let id1 = FileIdentifier::new(
        "https://example.com/consistent.zip",
        "/path/consistent.zip",
        Some(512),
    );
    let id2 = FileIdentifier::new(
        "https://example.com/consistent.zip",
        "/path/consistent.zip",
        Some(512),
    );

    assert_eq!(id1.url_hash, id2.url_hash);
}

#[test]
fn file_identifier_unparseable_url_falls_back_to_raw_hash() {
    let identifier = FileIdentifier::new("not a url", "/d/f", None);
    assert_eq!(identifier.url_hash.len(), 64);
    // one identifier matches another built from the same request
    let again = FileIdentifier::new("not a url", "/d/f", None);
    assert!(identifier.matches_task(&again));
}
