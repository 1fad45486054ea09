//! The decisions the mirror makes while applying reconcile actions.
//!
//! The daemon moves the bytes (local files, the object store, the journal);
//! what it does at each step is decided here.

use vstd::prelude::*;
use crate::journal::{JournalEntry, StubEntry};
use crate::reconcile::{Action, Remote};
use crate::text::{clone_opt, opt_view};

verus! {

/// Per-sync aggregate counts.
#[derive(Debug, Clone, Copy, PartialEq, Eq, Structural)]
pub struct SyncOutcome {
    pub uploaded: usize,
    pub downloaded: usize,
    pub conflicts: usize,
    pub deleted_remote: usize,
    pub deleted_local: usize,
    pub skipped: usize,
    pub errors: usize,
}

impl SyncOutcome {
    /// All counts zero.
    pub fn new() -> (o: SyncOutcome)
        ensures
            o == zero_outcome(),
    {
        SyncOutcome {
            uploaded: 0,
            downloaded: 0,
            conflicts: 0,
            deleted_remote: 0,
            deleted_local: 0,
            skipped: 0,
            errors: 0,
        }
    }
}

impl Default for SyncOutcome {
    fn default() -> (o: SyncOutcome)
        ensures
            o == zero_outcome(),
    {
        SyncOutcome::new()
    }
}

pub open spec fn zero_outcome() -> SyncOutcome {
    SyncOutcome {
        uploaded: 0,
        downloaded: 0,
        conflicts: 0,
        deleted_remote: 0,
        deleted_local: 0,
        skipped: 0,
        errors: 0,
    }
}

/// Progress events emitted during a sync (forwarded to clients by the engine).
#[derive(Debug, Clone)]
pub enum SyncEvent {
    Started,
    Uploaded(String),
    Downloaded(String),
    Conflict(String),
    DeletedRemote(String),
    DeletedLocal(String),
    Error(String, String),
    Finished(SyncOutcome),
}

/// No count of `o` is at its maximum.
pub open spec fn room_to_count(o: SyncOutcome) -> bool {
    &&& o.uploaded < usize::MAX
    &&& o.downloaded < usize::MAX
    &&& o.conflicts < usize::MAX
    &&& o.deleted_remote < usize::MAX
    &&& o.deleted_local < usize::MAX
    &&& o.skipped < usize::MAX
    &&& o.errors < usize::MAX
}

/// The outcome after one more successful `action`.
pub open spec fn tallied(o: SyncOutcome, action: Action) -> SyncOutcome {
    match action {
        Action::Skip => SyncOutcome { skipped: (o.skipped + 1) as usize, ..o },
        Action::Upload | Action::UploadNew => SyncOutcome { uploaded: (o.uploaded + 1) as usize, ..o },
        Action::Download | Action::DownloadNew => SyncOutcome {
            downloaded: (o.downloaded + 1) as usize,
            ..o
        },
        Action::Conflict => SyncOutcome { conflicts: (o.conflicts + 1) as usize, ..o },
        Action::DeleteRemote => SyncOutcome { deleted_remote: (o.deleted_remote + 1) as usize, ..o },
        Action::DeleteLocal => SyncOutcome { deleted_local: (o.deleted_local + 1) as usize, ..o },
        Action::RecordStub | Action::Dematerialize | Action::DropJournal | Action::Compare => o,
    }
}

/// Count one successfully applied action. Lazy-mode bookkeeping, dropped
/// journal rows and comparisons are not counted as transfer activity.
pub fn tally_action(action: &Action, out: &mut SyncOutcome)
    requires
        room_to_count(*old(out)),
    ensures
        *final(out) == tallied(*old(out), *action),
{
    match action {
        Action::Skip => out.skipped += 1,
        Action::Upload | Action::UploadNew => out.uploaded += 1,
        Action::Download | Action::DownloadNew => out.downloaded += 1,
        Action::Conflict => out.conflicts += 1,
        Action::DeleteRemote => out.deleted_remote += 1,
        Action::DeleteLocal => out.deleted_local += 1,
        Action::RecordStub | Action::Dematerialize => {},
        Action::DropJournal | Action::Compare => {},
    }
}

/// The outcome after applying `action`: counted when it succeeded, an error
/// otherwise.
pub open spec fn recorded(o: SyncOutcome, action: Action, succeeded: bool) -> SyncOutcome {
    if succeeded {
        tallied(o, action)
    } else {
        SyncOutcome { errors: (o.errors + 1) as usize, ..o }
    }
}

/// Record the result of applying one planned action.
pub fn record_result(out: &mut SyncOutcome, action: &Action, succeeded: bool)
    requires
        room_to_count(*old(out)),
    ensures
        *final(out) == recorded(*old(out), *action, succeeded),
{
    if succeeded {
        tally_action(action, out);
    } else {
        out.errors += 1;
    }
}

/// Whether two digests are equal.
pub fn digest_eq(a: &[u8; 32], b: &[u8; 32]) -> (r: bool)
    ensures
        r == (a@ == b@),
{
    let mut i: usize = 0;
    while i < 32
        invariant
            i <= 32,
            a@.len() == 32,
            b@.len() == 32,
            forall|k: int| 0 <= k < i ==> a@[k] == b@[k],
        decreases 32 - i,
    {
        if a[i] != b[i] {
            return false;
        }
        i += 1;
    }
    assert(a@ =~= b@);
    true
}

/// For an `Upload`: the content is unchanged from the baseline (only the
/// mtime moved), so the journal row is refreshed and nothing is pushed.
pub fn upload_unchanged(baseline: Option<&JournalEntry>, local_hash: &[u8; 32]) -> (r: bool)
    ensures
        r == match baseline {
            Some(j) => j.blake3@ == local_hash@,
            None => false,
        },
{
    match baseline {
        Some(j) => digest_eq(&j.blake3, local_hash),
        None => false,
    }
}

/// For a `Compare`: the remote object carries a content hash equal to the
/// local one, so both sides hold the same bytes and only the journal row is
/// recorded; otherwise (differing, or no hash attribute) both are kept as a
/// conflict.
pub fn compare_identical(local_hash: &[u8; 32], remote_hash: Option<&[u8; 32]>) -> (r: bool)
    ensures
        r == match remote_hash {
            Some(h) => h@ == local_hash@,
            None => false,
        },
{
    match remote_hash {
        Some(h) => digest_eq(h, local_hash),
        None => false,
    }
}

/// Lazy mode: the stub recorded for a remote-only object.
pub fn stub_for_remote(r: &Remote) -> (s: StubEntry)
    ensures
        s.size == r.size,
        opt_view(s.version) == opt_view(r.version),
{
    StubEntry { size: r.size, version: clone_opt(&r.version) }
}

/// Lazy mode: the stub a materialized file goes back to when it is deleted
/// locally.
pub fn stub_for_baseline(j: &JournalEntry) -> (s: StubEntry)
    ensures
        s.size == j.size,
        opt_view(s.version) == opt_view(j.remote_version),
{
    StubEntry { size: j.size, version: clone_opt(&j.remote_version) }
}

/// The remote version recorded when a stub is materialized: the version the
/// fetch reported, else the one the stub knew.
pub fn materialized_version(fetched: Option<String>, stub: &StubEntry) -> (v: Option<String>)
    ensures
        opt_view(v) == match fetched {
            Some(f) => Some(f@),
            None => opt_view(stub.version),
        },
{
    match fetched {
        Some(f) => Some(f),
        None => clone_opt(&stub.version),
    }
}

/// The journal row recorded after bytes are written or read: content hash,
/// size, mtime and remote version.
pub fn entry_for(
    hash: [u8; 32],
    size: u64,
    mtime_millis: u64,
    remote_version: Option<String>,
) -> (e: JournalEntry)
    ensures
        e.blake3 == hash,
        e.size == size,
        e.mtime_millis == mtime_millis,
        e.remote_version == remote_version,
{
    JournalEntry { blake3: hash, size, mtime_millis, remote_version }
}

/// Size above which uploads use multipart (8 MiB).
pub const MULTIPLE_PART_THRESHOLD: u64 = 8388608;

/// Whether an upload of `size` bytes goes in parts.
pub fn use_multipart(size: u64) -> (r: bool)
    ensures
        r == (size > MULTIPLE_PART_THRESHOLD),
{
    size > MULTIPLE_PART_THRESHOLD
}

} // verus!
