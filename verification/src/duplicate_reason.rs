//! Reasons a download was identified as a duplicate.

use vstd::prelude::*;

verus! {

/// Why a download was considered a duplicate of a known task.
#[derive(Debug, Clone, Copy, PartialEq, Eq, Structural)]
pub enum DuplicateReason {
    /// Exact match: same URL fingerprint and target path.
    ExactMatch,
    /// Same URL and target path.
    UrlAndPath,
    /// Same file content hash.
    FileContent,
    /// Similar URL after normalization.
    SimilarUrl,
    /// Same filename in the target directory.
    Filename,
    /// The policy allows the duplicate operation.
    PolicyAllowed,
}

/// The description text of each reason.
pub open spec fn spec_description(r: &DuplicateReason) -> Seq<char> {
    match r {
        DuplicateReason::ExactMatch => "Exact match - same URL hash and target path"@,
        DuplicateReason::UrlAndPath => "Same URL and target path"@,
        DuplicateReason::FileContent => "Same file content (hash match)"@,
        DuplicateReason::SimilarUrl => "Similar URL after normalization"@,
        DuplicateReason::Filename => "Same filename in target directory"@,
        DuplicateReason::PolicyAllowed => "Policy allows duplicate operation"@,
    }
}

impl DuplicateReason {
    /// Human-readable description of this reason.
    pub fn description(&self) -> (r: &'static str)
        ensures
            r@ == spec_description(self),
    {
        match self {
            DuplicateReason::ExactMatch => "Exact match - same URL hash and target path",
            DuplicateReason::UrlAndPath => "Same URL and target path",
            DuplicateReason::FileContent => "Same file content (hash match)",
            DuplicateReason::SimilarUrl => "Similar URL after normalization",
            DuplicateReason::Filename => "Same filename in target directory",
            DuplicateReason::PolicyAllowed => "Policy allows duplicate operation",
        }
    }

    /// The priority of this reason; a lower number is a stronger match.
    pub open spec fn spec_priority(&self) -> u8 {
        match self {
            DuplicateReason::ExactMatch => 0,
            DuplicateReason::UrlAndPath => 1,
            DuplicateReason::FileContent => 2,
            DuplicateReason::SimilarUrl => 3,
            DuplicateReason::Filename => 4,
            DuplicateReason::PolicyAllowed => 5,
        }
    }

    #[verifier::when_used_as_spec(spec_priority)]
    pub fn priority(&self) -> (r: u8)
        ensures
            r == self.spec_priority(),
    {
        match self {
            DuplicateReason::ExactMatch => 0,
            DuplicateReason::UrlAndPath => 1,
            DuplicateReason::FileContent => 2,
            DuplicateReason::SimilarUrl => 3,
            DuplicateReason::Filename => 4,
            DuplicateReason::PolicyAllowed => 5,
        }
    }

    /// Whether this reason is a strong indication of a true duplicate.
    pub open spec fn spec_is_strong_match(&self) -> bool {
        self is ExactMatch || self is UrlAndPath || self is FileContent
    }

    #[verifier::when_used_as_spec(spec_is_strong_match)]
    pub fn is_strong_match(&self) -> (r: bool)
        ensures
            r == self.spec_is_strong_match(),
    {
        matches!(
            self,
            DuplicateReason::ExactMatch | DuplicateReason::UrlAndPath | DuplicateReason::FileContent
        )
    }
}

} // verus!
