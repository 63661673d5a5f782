//! Progress of a single download task.

use vstd::prelude::*;

verus! {

/// Progress snapshot of a download task.
#[derive(Debug, PartialEq, Eq, Structural)]
pub struct DownloadProgress {
    /// Number of bytes downloaded so far.
    pub downloaded_bytes: u64,
    /// Total file size in bytes, once known.
    pub total_bytes: Option<u64>,
    /// Current download speed in bytes per second.
    pub speed_bps: u64,
    /// Estimated seconds to completion, when one can be given.
    pub eta_seconds: Option<u64>,
}

impl DownloadProgress {
    /// An empty snapshot: nothing downloaded, size and estimate unknown.
    pub fn new() -> (r: Self)
        ensures
            r.downloaded_bytes == 0,
            r.total_bytes is None,
            r.speed_bps == 0,
            r.eta_seconds is None,
    {
        DownloadProgress { downloaded_bytes: 0, total_bytes: None, speed_bps: 0, eta_seconds: None }
    }
}

impl Clone for DownloadProgress {
    /// Cloning preserves the snapshot.
    fn clone(&self) -> (r: Self)
        ensures
            r == *self,
    {
        DownloadProgress {
            downloaded_bytes: self.downloaded_bytes,
            total_bytes: self.total_bytes,
            speed_bps: self.speed_bps,
            eta_seconds: self.eta_seconds,
        }
    }
}

impl Default for DownloadProgress {
    /// The default snapshot is the empty one.
    fn default() -> (r: Self)
        ensures
            r.downloaded_bytes == 0,
            r.total_bytes is None,
            r.speed_bps == 0,
            r.eta_seconds is None,
    {
        DownloadProgress::new()
    }
}

} // verus!
