//! The last-synced snapshot, one row per relative key, and the mapping
//! between relative keys and local paths.
//!
//! The "relative key" of a file is its path relative to the mirror root, with
//! `/` between the parts. The rows themselves live in a database that the
//! daemon keeps; here are the row types and the key arithmetic.

use vstd::prelude::*;

verus! {

/// One row of the last-synced snapshot.
#[derive(Debug, Clone, PartialEq, Eq)]
pub struct JournalEntry {
    /// blake3 content hash: the identity, source of truth for "same file".
    pub blake3: [u8; 32],
    pub size: u64,
    /// mtime in milliseconds since the Unix epoch.
    pub mtime_millis: u64,
    /// Remote version id / ETag for cheap change detection on the next poll.
    /// `None` for entries not yet uploaded.
    pub remote_version: Option<String>,
}

#[verifier::external_type_specification]
#[verifier::external_body]
pub struct ExSystemTime(std::time::SystemTime);

/// The instant `ms` milliseconds after the Unix epoch.
pub uninterp spec fn instant_at_millis(ms: u64) -> std::time::SystemTime;

/// `UNIX_EPOCH.checked_add(Duration::from_millis(ms))`: the instant, when
/// the platform's `SystemTime` can hold it. Which instants it can hold
/// depends on the platform, so only the instant given is stated.
#[verifier::external_body]
fn epoch_plus_millis(ms: u64) -> (t: Option<std::time::SystemTime>)
    ensures
        t matches Some(x) ==> x == instant_at_millis(ms),
{
    std::time::UNIX_EPOCH.checked_add(std::time::Duration::from_millis(ms))
}

impl JournalEntry {
    /// The modification time as an instant; none where the platform's
    /// `SystemTime` cannot hold it.
    pub fn mtime(&self) -> (t: Option<std::time::SystemTime>)
        ensures
            t matches Some(x) ==> x == instant_at_millis(self.mtime_millis),
    {
        epoch_plus_millis(self.mtime_millis)
    }
}

/// A lazy-download stub: metadata of a remote object that has no local bytes.
#[derive(Debug, Clone, PartialEq, Eq)]
pub struct StubEntry {
    pub size: u64,
    pub version: Option<String>,
}

} // verus!
