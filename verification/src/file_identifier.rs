//! Composite key identifying a download for duplicate detection: the
//! fingerprint of the normalized URL together with the target path.

use vstd::prelude::*;
use crate::url_normalization::{
    canonical_text_of, hash_normalized_url, is_valid_hash_text, process_url_for_storage,
    url_hash_of, url_parseable,
};

verus! {

/// Composite key of a download: URL fingerprint, target path, and the
/// declared size when one is known.
#[derive(Debug)]
pub struct FileIdentifier {
    /// Fingerprint of the normalized URL: 64 lowercase hex characters.
    pub url_hash: String,
    /// Destination path text.
    pub target_path: String,
    /// Declared size in bytes, when known.
    pub file_size: Option<u64>,
}

/// A view of anything that carries a URL fingerprint and a target path, for
/// duplicate matching.
pub trait HasUrlHashAndPath {
    /// The fingerprint text.
    spec fn spec_url_hash(&self) -> Seq<char>;

    /// The target path text.
    spec fn spec_target_path(&self) -> Seq<char>;

    /// The fingerprint text.
    fn url_hash(&self) -> (r: &str)
        ensures
            r@ == self.spec_url_hash(),
    ;

    /// The target path text.
    fn target_path(&self) -> (r: &str)
        ensures
            r@ == self.spec_target_path(),
    ;
}

impl HasUrlHashAndPath for FileIdentifier {
    open spec fn spec_url_hash(&self) -> Seq<char> {
        self.url_hash@
    }

    open spec fn spec_target_path(&self) -> Seq<char> {
        self.target_path@
    }

    fn url_hash(&self) -> &str {
        self.url_hash.as_str()
    }

    fn target_path(&self) -> &str {
        self.target_path.as_str()
    }
}

impl FileIdentifier {
    /// Build the identifier for a request: fingerprint the normalized URL,
    /// falling back to the fingerprint of the raw URL text when it does not
    /// parse.
    pub fn new(url: &str, target_path: &str, file_size: Option<u64>) -> (r: Self)
        ensures
            is_valid_hash_text(r.url_hash@),
            url_parseable(url@) ==> r.url_hash@ == url_hash_of(canonical_text_of(url@)),
            !url_parseable(url@) ==> r.url_hash@ == url_hash_of(url@),
            r.target_path@ == target_path@,
            r.file_size == file_size,
    {
        let url_hash = match process_url_for_storage(url) {
            Ok((_normalized, hash)) => hash,
            Err(_) => hash_normalized_url(url),
        };
        FileIdentifier { url_hash, target_path: target_path.to_owned(), file_size }
    }

    /// Whether this identifier matches the given carrier: same fingerprint
    /// and same target path.
    pub fn matches_task<T: HasUrlHashAndPath>(&self, task: &T) -> (r: bool)
        ensures
            r == (self.url_hash@ == task.spec_url_hash() && self.target_path@
                == task.spec_target_path()),
    {
        crate::text::str_eq(self.url_hash.as_str(), task.url_hash())
            && crate::text::str_eq(self.target_path.as_str(), task.target_path())
    }
}

impl Clone for FileIdentifier {
    /// Cloning preserves every field.
    fn clone(&self) -> (r: Self)
        ensures
            r == *self,
    {
        FileIdentifier {
            url_hash: self.url_hash.clone(),
            target_path: self.target_path.clone(),
            file_size: self.file_size,
        }
    }
}

} // verus!
