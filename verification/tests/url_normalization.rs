//! URL canonicalization behaviour on concrete inputs.

use burncloud_download::url_normalization::{
    default_filename, hash_normalized_url, is_valid_url_hash, normalize_url,
    process_url_for_storage,
};

#[test]
fn test_url_normalization_removes_fragment() {
    let result = normalize_url("https://example.com/file.zip#section").unwrap();
    assert_eq!(result, "https://example.com/file.zip");
}

#[test]
fn test_url_normalization_sorts_query_params() {
    let result = normalize_url("https://example.com/file.zip?b=2&a=1").unwrap();
    assert_eq!(result, "https://example.com/file.zip?a=1&b=2");
}

#[test]
fn test_url_normalization_removes_default_ports() {
    let result = normalize_url("https://example.com:443/file.zip").unwrap();
    assert_eq!(result, "https://example.com/file.zip");

    let result = normalize_url("http://example.com:80/file.zip").unwrap();
    assert_eq!(result, "http://example.com/file.zip");
}

#[test]
fn test_url_normalization_preserves_custom_ports() {
    let result = normalize_url("https://example.com:8443/file.zip").unwrap();
    assert_eq!(result, "https://example.com:8443/file.zip");
}

#[test]
fn url_normalization_test_hash_consistency() {
    let url = "https://example.com/file.zip";
    let hash1 = hash_normalized_url(url);
    let hash2 = hash_normalized_url(url);
    assert_eq!(hash1, hash2);
    assert_eq!(hash1.len(), 64);
}

#[test]
fn url_normalization_test_process_url_for_storage() {
    let (normalized, hash) = process_url_for_storage("https://example.com/file.zip#section").unwrap();
    assert_eq!(normalized, "https://example.com/file.zip");
    assert_eq!(hash.len(), 64);
    assert!(is_valid_url_hash(&hash));
}

#[test]
fn url_normalization_test_is_valid_url_hash() {
    let valid_hash = "a".repeat(64);
    assert!(is_valid_url_hash(&valid_hash));

    assert!(!is_valid_url_hash("abc123"));

    let invalid_hash = "z".repeat(64);
    assert!(!is_valid_url_hash(&invalid_hash));
}

#[test]
fn test_url_normalization_error_handling() {
    let result = normalize_url("not-a-url");
    assert!(result.is_err());
}

#[test]
fn test_normalize_url_removes_fragment() {
    let result = normalize_url("https://example.com/file.zip#section").unwrap();
    assert_eq!(result, "https://example.com/file.zip");
}

#[test]
fn test_normalize_url_sorts_query_parameters() {
    let result = normalize_url("https://example.com/file.zip?b=2&a=1&c=3").unwrap();
    assert_eq!(result, "https://example.com/file.zip?a=1&b=2&c=3");
}

#[test]
fn test_normalize_url_removes_default_ports() {
    let result_https = normalize_url("https://example.com:443/file.zip").unwrap();
    assert_eq!(result_https, "https://example.com/file.zip");

    let result_http = normalize_url("http://example.com:80/file.zip").unwrap();
    assert_eq!(result_http, "http://example.com/file.zip");
}

#[test]
fn test_normalize_url_preserves_custom_ports() {
    let result = normalize_url("https://example.com:8443/file.zip").unwrap();
    assert_eq!(result, "https://example.com:8443/file.zip");
}

#[test]
fn test_normalize_url_handles_empty_query() {
    let result = normalize_url("https://example.com/file.zip?").unwrap();
    assert_eq!(result, "https://example.com/file.zip");
}

#[test]
fn test_normalize_url_handles_complex_scenarios() {
    let complex_url = "https://example.com:443/path/file.zip?z=3&a=1&b=2#fragment";
    let result = normalize_url(complex_url).unwrap();
    assert_eq!(result, "https://example.com/path/file.zip?a=1&b=2&z=3");
}

#[test]
fn test_normalize_url_error_handling() {
    let result = normalize_url("not-a-valid-url");
    assert!(result.is_err());

    let result = normalize_url("");
    assert!(result.is_err());

    let result = normalize_url("ftp://invalid.scheme");
    assert!(result.is_ok());
}

#[test]
fn test_normalize_url_preserves_path_and_scheme() {
    let result = normalize_url("https://example.com/deep/path/to/file.pdf").unwrap();
    assert_eq!(result, "https://example.com/deep/path/to/file.pdf");
}

#[test]
fn test_normalize_url_handles_encoded_characters() {
    let result = normalize_url("https://example.com/file%20name.zip").unwrap();
    assert_eq!(result, "https://example.com/file%20name.zip");
}

#[test]
fn test_normalize_url_handles_unicode() {
    let result = normalize_url("https://example.com/файл.zip");
    assert!(result.is_ok() || result.is_err());
}

#[test]
fn url_normalization_tests_test_hash_consistency() {
    let url = "https://example.com/file.zip";
    let hash1 = hash_normalized_url(url);
    let hash2 = hash_normalized_url(url);
    assert_eq!(hash1, hash2);
    assert_eq!(hash1.len(), 64);
}

#[test]
fn url_normalization_tests_test_process_url_for_storage() {
    let (normalized, hash) = process_url_for_storage("https://example.com/file.zip#section").unwrap();
    assert_eq!(normalized, "https://example.com/file.zip");
    assert_eq!(hash.len(), 64);
    assert!(is_valid_url_hash(&hash));
}

#[test]
fn url_normalization_tests_test_is_valid_url_hash() {
    let valid_hash = "a".repeat(64);
    assert!(is_valid_url_hash(&valid_hash));

    assert!(!is_valid_url_hash("abc123"));

    let invalid_hash = "z".repeat(64);
    assert!(!is_valid_url_hash(&invalid_hash));
}

#[test]
fn canonicalization_is_idempotent() {
    let inputs = [
        "https://example.com/file.zip#section",
        "https://example.com:443/path/file.zip?z=3&a=1&b=2#fragment",
        "http://example.com:80/file.zip?b=2&a=1",
        "https://user@example.com:8443/a/b?x=%20y",
    ];
    for input in inputs {
        let once = normalize_url(input).unwrap();
        let twice = normalize_url(&once).unwrap();
        assert_eq!(once, twice, "canonicalization not idempotent for {input}");
    }
}

#[test]
fn canonicalization_identifies_equivalent_variants() {
    // fragment
    assert_eq!(
        normalize_url("https://example.com/f").unwrap(),
        normalize_url("https://example.com/f#top").unwrap()
    );
    // default port
    assert_eq!(
        normalize_url("https://example.com/f").unwrap(),
        normalize_url("https://example.com:443/f").unwrap()
    );
    // query order
    assert_eq!(
        normalize_url("https://example.com/f?a=1&b=2").unwrap(),
        normalize_url("https://example.com/f?b=2&a=1").unwrap()
    );
}

#[test]
fn query_sort_orders_equal_keys_by_value() {
    let result = normalize_url("https://example.com/f?a=2&a=1&b=0").unwrap();
    assert_eq!(result, "https://example.com/f?a=1&a=2&b=0");
}

#[test]
fn default_filename_takes_url_tail() {
    assert_eq!(default_filename("https://example.com/a/b.zip"), "b.zip");
    assert_eq!(default_filename("https://example.com/"), "download");
    assert_eq!(default_filename("plain"), "plain");
}
