//! Duplicate-detection services: the detector over URL identities, the
//! repository and validation stubs it composes with, and the background hash
//! bookkeeping. The detector's lookups are placeholders until a store is
//! attached; their contracts say exactly that.

use vstd::prelude::*;
use crate::duplicate_policy::DuplicatePolicy;
use crate::duplicate_result::DuplicateResult;
use crate::error::DownloadError;
use crate::file_identifier::HasUrlHashAndPath;
use crate::status::DownloadStatus;
use crate::task::TaskId;
use crate::url_normalization::{
    canonical_text_of, is_valid_hash_text, process_url_for_storage, url_hash_of, url_parseable,
};

verus! {

/// A stand-in task record used by detector queries before a store is
/// attached.
#[derive(Debug)]
pub struct MockDownloadTask {
    pub id: TaskId,
    pub url: String,
    pub url_hash: String,
    pub target_path: String,
    pub status: DownloadStatus,
}

impl HasUrlHashAndPath for MockDownloadTask {
    open spec fn spec_url_hash(&self) -> Seq<char> {
        self.url_hash@
    }

    open spec fn spec_target_path(&self) -> Seq<char> {
        self.target_path@
    }

    fn url_hash(&self) -> &str {
        self.url_hash.as_str()
    }

    fn target_path(&self) -> &str {
        self.target_path.as_str()
    }
}

/// Detector of duplicate downloads by normalized URL and target path.
pub struct DefaultDuplicateDetector {}

impl Default for DefaultDuplicateDetector {
    /// The default detector.
    fn default() -> Self {
        Self::new()
    }
}

impl DefaultDuplicateDetector {
    /// A fresh detector.
    pub fn new() -> Self {
        DefaultDuplicateDetector {  }
    }

    /// Fingerprint the request; with no store attached yet, no duplicate is
    /// ever found. Fails with `InvalidUrl` exactly when the URL does not
    /// parse.
    pub fn find_duplicate(&self, url: &str, target_path: &str) -> (r: Result<
        DuplicateResult,
        DownloadError,
    >)
        ensures
            r is Ok <==> url_parseable(url@),
            r matches Ok(res) ==> (res matches DuplicateResult::NotFound { url_hash, target_path: p }
                && url_hash@ == url_hash_of(canonical_text_of(url@)) && is_valid_hash_text(
                url_hash@,
            ) && p@ == target_path@),
            r matches Err(e) ==> e is InvalidUrl,
    {
        let (_normalized, url_hash) = match process_url_for_storage(url) {
            Ok(pair) => pair,
            Err(e) => {
                return Err(e);
            },
        };
        Ok(DuplicateResult::NotFound { url_hash, target_path: target_path.to_owned() })
    }

    /// With no store attached yet, no task carries any fingerprint.
    pub fn find_by_url_hash(&self, _url_hash: &str) -> (r: Result<
        Vec<MockDownloadTask>,
        DownloadError,
    >)
        ensures
            r matches Ok(v) && v@.len() == 0,
    {
        Ok(Vec::new())
    }

    /// With no store attached yet, no task matches any request.
    pub fn find_by_url_and_path(&self, _url: &str, _target_path: &str) -> (r: Result<
        Option<TaskId>,
        DownloadError,
    >)
        ensures
            r matches Ok(o) && o is None,
    {
        Ok(None)
    }

    /// Apply a policy to the request; with no store attached yet, every
    /// policy sees no duplicate. Fails with `InvalidUrl` exactly when the URL
    /// does not parse.
    pub fn apply_policy(&self, url: &str, target_path: &str, _policy: DuplicatePolicy) -> (r:
        Result<DuplicateResult, DownloadError>)
        ensures
            r is Ok <==> url_parseable(url@),
            r matches Ok(res) ==> (res matches DuplicateResult::NotFound { url_hash, target_path: p }
                && url_hash@ == url_hash_of(canonical_text_of(url@)) && is_valid_hash_text(
                url_hash@,
            ) && p@ == target_path@),
            r matches Err(e) ==> e is InvalidUrl,
    {
        self.find_duplicate(url, target_path)
    }

    /// With no store attached yet, there are no candidates.
    pub fn get_candidates(&self, _url: &str, _target_path: &str) -> (r: Result<
        Vec<TaskId>,
        DownloadError,
    >)
        ensures
            r matches Ok(v) && v@.len() == 0,
    {
        Ok(Vec::new())
    }
}

/// Bookkeeping for file-hash calculation performed after completion; the
/// hashing itself reads files and is the host process's work.
pub struct BackgroundHashCalculator {}

impl BackgroundHashCalculator {
    /// A fresh calculator.
    pub fn new() -> Self {
        BackgroundHashCalculator {  }
    }

    /// Accept a request to hash a finished file; queueing never fails.
    pub fn queue_calculation(&self, _task_id: TaskId, _file_path: &str) -> (r: Result<
        (),
        DownloadError,
    >)
        ensures
            r is Ok,
    {
        Ok(())
    }
}

/// Repository of duplicate-detection fields; a store is attached by the host
/// process, and until then every query is empty.
pub struct DefaultTaskRepository {}

impl Default for DefaultTaskRepository {
    /// The default repository.
    fn default() -> Self {
        Self::new()
    }
}

impl DefaultTaskRepository {
    /// A fresh repository.
    pub fn new() -> Self {
        DefaultTaskRepository {  }
    }

    /// With no store attached, no task matches.
    pub fn find_by_url_hash_and_path(&self, _url_hash: &str, _target_path: &str) -> (r: Result<
        Vec<TaskId>,
        DownloadError,
    >)
        ensures
            r matches Ok(v) && v@.len() == 0,
    {
        Ok(Vec::new())
    }

    /// With no store attached, no task matches.
    pub fn find_by_file_hash(&self, _file_hash: &str) -> (r: Result<Vec<TaskId>, DownloadError>)
        ensures
            r matches Ok(v) && v@.len() == 0,
    {
        Ok(Vec::new())
    }

    /// With no store attached, updating fields is accepted and dropped.
    pub fn update_duplicate_fields(
        &self,
        _task_id: &TaskId,
        _url_hash: &str,
        _file_hash: Option<&str>,
        _file_size: Option<u64>,
    ) -> (r: Result<(), DownloadError>)
        ensures
            r is Ok,
    {
        Ok(())
    }
}

/// Validation of task reusability; source and file checks are the host
/// process's work, and until they are wired in every check passes.
pub struct TaskValidation {}

impl TaskValidation {
    /// A fresh validator.
    pub fn new() -> Self {
        TaskValidation {  }
    }

    /// Every task passes until file checks are wired in.
    pub fn verify_task_validity(&self, _task_id: &TaskId) -> (r: Result<bool, DownloadError>)
        ensures
            r matches Ok(b) && b,
    {
        Ok(true)
    }

    /// Every source passes until reachability checks are wired in.
    pub fn verify_source_accessibility(&self, _url: &str) -> (r: Result<bool, DownloadError>)
        ensures
            r matches Ok(b) && b,
    {
        Ok(true)
    }

    /// Every file passes until integrity checks are wired in.
    pub fn verify_file_integrity(&self, _task_id: &TaskId) -> (r: Result<bool, DownloadError>)
        ensures
            r matches Ok(b) && b,
    {
        Ok(true)
    }
}

} // verus!
