//! Download tasks and their identifiers.

use vstd::prelude::*;
use crate::status::DownloadStatus;

verus! {

/// Unique identifier of a download task: the 128-bit value of a version-4 UUID.
#[derive(Debug, Clone, Copy, PartialEq, Eq, Hash, Structural)]
pub struct TaskId(pub u128);

/// The error uuid parsing reports on malformed identifier text.
#[verifier::external_type_specification]
#[verifier::external_body]
pub struct ExUuidError(uuid::Error);

/// Relies on uuid::Uuid::new_v4 for a freshly drawn random identifier value.
/// Nothing is promised of the draw.
#[verifier::external_body]
fn random_uuid_value() -> u128 {
    uuid::Uuid::new_v4().as_u128()
}

/// The hyphenated text of a UUID value: a function of the value alone.
pub uninterp spec fn uuid_text_of(v: u128) -> Seq<char>;

/// Relies on uuid's Display: the hyphenated lowercase form, 36 characters,
/// determined by the identifier value alone.
#[verifier::external_body]
fn format_uuid_value(v: u128) -> (r: String)
    ensures
        r@ == uuid_text_of(v),
        r@.len() == 36,
{
    uuid::Uuid::from_u128(v).to_string()
}

/// Relies on uuid::Uuid::parse_str: accepts the textual forms of a UUID and
/// rejects everything else. In particular the hyphenated text of a value —
/// what uuid's Display writes — parses back to exactly that value.
#[verifier::external_body]
fn parse_uuid_value(s: &str) -> (r: Result<u128, uuid::Error>)
    ensures
        r is Err ==> (forall|v: u128| s@ != uuid_text_of(v)),
        r matches Ok(w) ==> (forall|v: u128| s@ == uuid_text_of(v) ==> w == v),
{
    match uuid::Uuid::parse_str(s) {
        Ok(u) => Ok(u.as_u128()),
        Err(e) => Err(e),
    }
}

impl TaskId {
    /// Draw a fresh random identifier.
    pub fn new() -> Self {
        TaskId(random_uuid_value())
    }

    /// Draw a fresh random identifier.
    pub fn generate() -> Self {
        TaskId::new()
    }

    /// Parse an identifier from its text. The hyphenated text of an
    /// identifier — what `to_string` writes — parses back to that identifier.
    pub fn from_string(s: &str) -> (r: Result<Self, uuid::Error>)
        ensures
            r is Err ==> (forall|v: u128| s@ != uuid_text_of(v)),
            r matches Ok(id) ==> (forall|v: u128| s@ == uuid_text_of(v) ==> id.0 == v),
    {
        match parse_uuid_value(s) {
            Ok(v) => Ok(TaskId(v)),
            Err(e) => Err(e),
        }
    }

    /// The hyphenated text of this identifier: 36 characters, never empty.
    pub fn to_string(&self) -> (r: String)
        ensures
            r@ == uuid_text_of(self.0),
            r@.len() == 36,
    {
        format_uuid_value(self.0)
    }
}

/// Relies on std::time::SystemTime::now: the wall clock as milliseconds since
/// the Unix epoch, 0 when the clock reads earlier than the epoch. Nothing is
/// promised of the reading.
#[verifier::external_body]
pub(crate) fn now_millis() -> u64 {
    match std::time::SystemTime::now().duration_since(std::time::UNIX_EPOCH) {
        Ok(d) => d.as_millis() as u64,
        Err(_) => 0,
    }
}

/// One download task: where it downloads from and to, and where it stands.
#[derive(Debug)]
pub struct DownloadTask {
    /// Stable unique identifier.
    pub id: TaskId,
    /// Source URL. Tasks admitted through the duplicate gate store the
    /// canonical form.
    pub url: String,
    /// Destination path text.
    pub target_path: String,
    /// Current status.
    pub status: DownloadStatus,
    /// Creation time, milliseconds since the Unix epoch.
    pub created_at: u64,
    /// Time of the last status change, milliseconds since the Unix epoch.
    pub updated_at: u64,
}

impl DownloadTask {
    /// A fresh task for the given request, in the initial `Waiting` status,
    /// under a newly drawn identifier.
    pub fn new(url: String, target_path: String) -> (r: Self)
        ensures
            r.url == url,
            r.target_path == target_path,
            r.status is Waiting,
            r.created_at == r.updated_at,
    {
        let now: u64 = now_millis();
        DownloadTask {
            id: TaskId::new(),
            url,
            target_path,
            status: DownloadStatus::Waiting,
            created_at: now,
            updated_at: now,
        }
    }

    /// Set the status and refresh the update time; every other field is kept.
    pub fn update_status(&mut self, status: DownloadStatus)
        ensures
            final(self).status == status,
            final(self).id == old(self).id,
            final(self).url == old(self).url,
            final(self).target_path == old(self).target_path,
            final(self).created_at == old(self).created_at,
    {
        self.status = status;
        self.updated_at = now_millis();
    }
}

impl Clone for DownloadTask {
    /// Cloning preserves every field.
    fn clone(&self) -> (r: Self)
        ensures
            r == *self,
    {
        DownloadTask {
            id: self.id,
            url: self.url.clone(),
            target_path: self.target_path.clone(),
            status: self.status.clone(),
            created_at: self.created_at,
            updated_at: self.updated_at,
        }
    }
}

} // verus!
