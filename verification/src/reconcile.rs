//! The reconcile core.
//!
//! [`plan`] is a pure function over four key-to-info maps (the journal
//! baseline, the current local filesystem, the current remote listing and the
//! lazy-download stubs) and returns the [`Action`] to take for every key.
//!
//! "Dirty" detection uses the cheap signals (size and mtime locally, version
//! and size remotely); the content hash is recomputed by the mirror only when
//! bytes actually move or two sides must be told apart.

use vstd::prelude::*;
use crate::journal::{JournalEntry, StubEntry};
use crate::keyed::{insert_sorted, lemma_push_to_set, lookup, pair_keys, strictly_sorted, views, KeyedMap};
use crate::text::{opt_str_eq, opt_view};

verus! {

/// A local file's observed state.
#[derive(Debug, Clone, Copy, PartialEq, Eq, Structural)]
pub struct Local {
    pub size: u64,
    pub mtime_millis: u64,
}

/// A remote object's observed state (from a cheap listing, no `get`).
#[derive(Debug, Clone, PartialEq, Eq)]
pub struct Remote {
    pub size: u64,
    /// ETag / version id. `None` if the provider returned none.
    pub version: Option<String>,
}

/// What the engine should do for one key.
#[derive(Debug, Clone, Copy, PartialEq, Eq, Structural)]
pub enum Action {
    /// In sync; nothing to do.
    Skip,
    /// Local differs from baseline: recompute hash, push (skip if unchanged).
    Upload,
    /// Remote differs from baseline: pull.
    Download,
    /// Changed on both sides: keep both via conflict-copy (never lose data).
    Conflict,
    /// Local was deleted since baseline: delete remote, drop journal.
    DeleteRemote,
    /// Remote was deleted since baseline: delete local, drop journal.
    DeleteLocal,
    /// New on both sides with no baseline: the mirror compares hashes.
    Compare,
    /// New local-only: upload.
    UploadNew,
    /// New remote-only: download.
    DownloadNew,
    /// Lazy mode: new remote-only, record a stub, no I/O.
    RecordStub,
    /// Lazy mode: materialized file deleted locally, move back to stub and
    /// keep the remote object.
    Dematerialize,
    /// Present in journal but gone on both sides: drop the journal row.
    DropJournal,
}

impl Action {
    /// Whether this action needs the local content hash computed.
    pub fn needs_local_hash(&self) -> (r: bool)
        ensures
            r == (*self == Action::Upload || *self == Action::Compare),
    {
        match self {
            Action::Upload | Action::Compare => true,
            _ => false,
        }
    }

    /// Whether this action needs the remote object fetched (content + attr).
    pub fn needs_remote_get(&self) -> (r: bool)
        ensures
            r == (*self == Action::Compare),
    {
        match self {
            Action::Compare => true,
            _ => false,
        }
    }
}

/// The local file differs from its baseline in size or mtime.
pub open spec fn local_dirty(j: JournalEntry, l: Local) -> bool {
    l.size != j.size || l.mtime_millis != j.mtime_millis
}

/// The remote object differs from its baseline in version or size.
pub open spec fn remote_dirty(j: JournalEntry, r: Remote) -> bool {
    opt_view(r.version) != opt_view(j.remote_version) || r.size != j.size
}

/// The action for one key, from its baseline `j`, local state `l`, remote
/// state `r`, whether a stub is recorded for it, and the lazy policy.
pub open spec fn spec_decide(
    j: Option<JournalEntry>,
    l: Option<Local>,
    r: Option<Remote>,
    stubbed: bool,
    lazy: bool,
) -> Action {
    match (j, l, r) {
        (Some(j), Some(l), Some(r)) => {
            let ld = local_dirty(j, l);
            let rd = remote_dirty(j, r);
            if !ld && !rd {
                Action::Skip
            } else if ld && !rd {
                Action::Upload
            } else if !ld && rd {
                Action::Download
            } else {
                Action::Conflict
            }
        },
        (Some(_), None, Some(_)) => if lazy {
            Action::Dematerialize
        } else {
            Action::DeleteRemote
        },
        (Some(_), Some(_), None) => Action::DeleteLocal,
        (Some(_), None, None) => Action::DropJournal,
        (None, Some(_), Some(_)) => Action::Compare,
        (None, Some(_), None) => Action::UploadNew,
        (None, None, Some(_)) => if lazy {
            if stubbed {
                Action::Skip
            } else {
                Action::RecordStub
            }
        } else {
            Action::DownloadNew
        },
        (None, None, None) => Action::Skip,
    }
}

/// The value behind an optional reference.
pub open spec fn deref_opt<T>(o: Option<&T>) -> Option<T> {
    match o {
        Some(x) => Some(*x),
        None => None,
    }
}

/// Decide the action for a single key.
///
/// `stub` is the prior stub entry for this key (if any); `lazy` selects the
/// lazy-download policy.
pub fn decide(
    j: Option<&JournalEntry>,
    l: Option<&Local>,
    r: Option<&Remote>,
    stub: Option<&StubEntry>,
    lazy: bool,
) -> (a: Action)
    ensures
        a == spec_decide(deref_opt(j), deref_opt(l), deref_opt(r), stub is Some, lazy),
{
    match (j, l, r) {
        (Some(j), Some(l), Some(r)) => {
            let l_dirty = l.size != j.size || l.mtime_millis != j.mtime_millis;
            let r_dirty = !opt_str_eq(&r.version, &j.remote_version) || r.size != j.size;
            if !l_dirty && !r_dirty {
                Action::Skip
            } else if l_dirty && !r_dirty {
                Action::Upload
            } else if !l_dirty && r_dirty {
                Action::Download
            } else {
                Action::Conflict
            }
        },
        (Some(_), None, Some(_)) => {
            if lazy {
                Action::Dematerialize
            } else {
                Action::DeleteRemote
            }
        },
        (Some(_), Some(_), None) => Action::DeleteLocal,
        (Some(_), None, None) => Action::DropJournal,
        (None, Some(_), Some(_)) => Action::Compare,
        (None, Some(_), None) => Action::UploadNew,
        (None, None, Some(_)) => {
            if lazy {
                if stub.is_some() {
                    Action::Skip
                } else {
                    Action::RecordStub
                }
            } else {
                Action::DownloadNew
            }
        },
        (None, None, None) => Action::Skip,
    }
}

/// Inputs to [`plan`], keyed by relative key.
pub struct Inputs<'a> {
    pub journal: &'a KeyedMap<JournalEntry>,
    pub local: &'a KeyedMap<Local>,
    pub remote: &'a KeyedMap<Remote>,
    /// Lazy-download stubs (remote-only metadata, no local bytes).
    pub stub: &'a KeyedMap<StubEntry>,
    /// Whether lazy download is enabled. When true, remote-only objects become
    /// stubs instead of being downloaded; local deletes dematerialize instead
    /// of propagating to the remote.
    pub lazy: bool,
}

/// Every key that one of the four inputs knows.
pub open spec fn all_keys(inputs: Inputs) -> Set<Seq<char>> {
    inputs.journal@.dom() + inputs.local@.dom() + inputs.remote@.dom() + inputs.stub@.dom()
}

/// The action that [`plan`] assigns to key `k`.
pub open spec fn planned_action(inputs: Inputs, k: Seq<char>) -> Action {
    spec_decide(
        lookup(inputs.journal@, k),
        lookup(inputs.local@, k),
        lookup(inputs.remote@, k),
        inputs.stub@.dom().contains(k),
        inputs.lazy,
    )
}

fn add_keys<V>(keys: &mut Vec<String>, m: &KeyedMap<V>)
    requires
        strictly_sorted(views(old(keys)@)),
    ensures
        strictly_sorted(views(final(keys)@)),
        views(final(keys)@).to_set() == views(old(keys)@).to_set() + m@.dom(),
{
    let ks = m.keys();
    let ghost start = views(keys@).to_set();
    let mut i: usize = 0;
    while i < ks.len()
        invariant
            i <= ks@.len(),
            strictly_sorted(views(keys@)),
            views(keys@).to_set() == start + views(ks@).take(i as int).to_set(),
        decreases ks@.len() - i,
    {
        insert_sorted(keys, ks[i].clone());
        proof {
            assert(views(ks@).take(i + 1) =~= views(ks@).take(i as int).push(ks@[i as int]@));
            lemma_push_to_set(views(ks@).take(i as int), ks@[i as int]@);
            assert(views(keys@).to_set() =~= start + views(ks@).take(i + 1).to_set());
        }
        i += 1;
    }
    assert(views(ks@).take(ks@.len() as int) =~= views(ks@));
}

/// Decide the action list for every key in the union of the four inputs.
///
/// Deterministic: the keys come out once each, in increasing `str` order.
pub fn plan(inputs: Inputs<'_>) -> (out: Vec<(String, Action)>)
    ensures
        strictly_sorted(pair_keys(out@)),
        pair_keys(out@).to_set() == all_keys(inputs),
        forall|i: int|
            0 <= i < out@.len() ==> #[trigger] out@[i].1 == planned_action(inputs, out@[i].0@),
{
    let mut keys: Vec<String> = Vec::new();
    add_keys(&mut keys, inputs.journal);
    add_keys(&mut keys, inputs.local);
    add_keys(&mut keys, inputs.remote);
    add_keys(&mut keys, inputs.stub);
    proof {
        assert(views(keys@).to_set() =~= all_keys(inputs));
    }
    let mut out: Vec<(String, Action)> = Vec::new();
    let mut i: usize = 0;
    while i < keys.len()
        invariant
            i <= keys@.len(),
            out@.len() == i,
            forall|j: int| 0 <= j < i ==> #[trigger] out@[j].0@ == keys@[j]@,
            forall|j: int|
                0 <= j < i ==> #[trigger] out@[j].1 == planned_action(inputs, out@[j].0@),
        decreases keys@.len() - i,
    {
        let key = keys[i].clone();
        let action = decide(
            inputs.journal.get(key.as_str()),
            inputs.local.get(key.as_str()),
            inputs.remote.get(key.as_str()),
            inputs.stub.get(key.as_str()),
            inputs.lazy,
        );
        let ghost kv = key@;
        let ghost old_out = out@;
        assert(kv == keys@[i as int]@);
        out.push((key, action));
        assert(out@[i as int].0@ == kv);
        assert forall|j: int| 0 <= j <= i implies #[trigger] out@[j].0@ == keys@[j]@ by {
            if j < i {
                assert(out@[j] == old_out[j]);
            }
        }
        i += 1;
    }
    proof {
        assert(pair_keys(out@) =~= views(keys@));
    }
    out
}

/// Three-way reconcile against the baseline: with a baseline and both sides
/// present, an unchanged pair is skipped, a change on one side moves that
/// side's bytes to the other, and a change on both sides is a conflict.
pub proof fn law_three_way(j: JournalEntry, l: Local, r: Remote, stubbed: bool, lazy: bool)
    ensures
        spec_decide(Some(j), Some(l), Some(r), stubbed, lazy) == (if !local_dirty(j, l)
            && !remote_dirty(j, r) {
            Action::Skip
        } else if local_dirty(j, l) && !remote_dirty(j, r) {
            Action::Upload
        } else if !local_dirty(j, l) && remote_dirty(j, r) {
            Action::Download
        } else {
            Action::Conflict
        }),
{
}

/// Delete detection goes through the journal: a key that was never synced
/// (no baseline) is never deleted on either side, only uploaded, downloaded,
/// stubbed, compared or skipped.
pub proof fn law_no_delete_without_baseline(
    l: Option<Local>,
    r: Option<Remote>,
    stubbed: bool,
    lazy: bool,
)
    ensures
        ({
            let a = spec_decide(None, l, r, stubbed, lazy);
            a != Action::DeleteRemote && a != Action::DeleteLocal && a != Action::DropJournal
                && a != Action::Dematerialize
        }),
{
}

/// A side is deleted only when the journal has a baseline for the key, the
/// other side has lost the file, and this side still has it.
pub proof fn law_delete_needs_baseline(
    j: Option<JournalEntry>,
    l: Option<Local>,
    r: Option<Remote>,
    stubbed: bool,
    lazy: bool,
)
    ensures
        spec_decide(j, l, r, stubbed, lazy) == Action::DeleteRemote ==> j is Some && l is None
            && r is Some && !lazy,
        spec_decide(j, l, r, stubbed, lazy) == Action::DeleteLocal ==> j is Some && l is Some
            && r is None,
{
}

/// Lazy mode never deletes a remote object and never downloads on its own.
pub proof fn law_lazy_keeps_remote(
    j: Option<JournalEntry>,
    l: Option<Local>,
    r: Option<Remote>,
    stubbed: bool,
)
    ensures
        spec_decide(j, l, r, stubbed, true) != Action::DeleteRemote,
        spec_decide(j, l, r, stubbed, true) != Action::DownloadNew,
{
}

/// A key seen on both sides for the first time is compared by content, never
/// overwritten on either side.
pub proof fn law_first_sight_compares(l: Local, r: Remote, stubbed: bool, lazy: bool)
    ensures
        spec_decide(None, Some(l), Some(r), stubbed, lazy) == Action::Compare,
{
}

/// A plan names every key once: no key gets two actions.
pub proof fn law_plan_keys_unique(out: Seq<(String, Action)>, i: int, k: int)
    requires
        strictly_sorted(pair_keys(out)),
        0 <= i < out.len(),
        0 <= k < out.len(),
        i != k,
    ensures
        out[i].0@ != out[k].0@,
{
    crate::keyed::lemma_sorted_unique(pair_keys(out), i, k);
}

/// Deletes propagate through the baseline, in either mode: a synced file
/// gone from the bucket is deleted locally; a synced file gone locally is
/// deleted from the bucket (in lazy mode it goes back to a stub instead);
/// a synced file gone from both sides leaves only its journal row, which
/// is dropped.
pub proof fn law_deletes_propagate(j: JournalEntry, l: Local, r: Remote, stubbed: bool, lazy: bool)
    ensures
        spec_decide(Some(j), Some(l), None, stubbed, lazy) == Action::DeleteLocal,
        spec_decide(Some(j), None, Some(r), stubbed, false) == Action::DeleteRemote,
        spec_decide(Some(j), None, Some(r), stubbed, true) == Action::Dematerialize,
        spec_decide(Some(j), None, None, stubbed, lazy) == Action::DropJournal,
{
}

/// A file new on one side only goes to the other: a new local file is
/// uploaded in either mode; a new remote object is downloaded, or in lazy
/// mode recorded as a stub once (and skipped once it has one).
pub proof fn law_new_files_cross(l: Local, r: Remote, stubbed: bool, lazy: bool)
    ensures
        spec_decide(None, Some(l), None, stubbed, lazy) == Action::UploadNew,
        spec_decide(None, None, Some(r), stubbed, false) == Action::DownloadNew,
        spec_decide(None, None, Some(r), false, true) == Action::RecordStub,
        spec_decide(None, None, Some(r), true, true) == Action::Skip,
{
}

/// Change against the baseline is judged by size and mtime locally, and by
/// size and version remotely: with both sides present, a file whose local
/// size and mtime and whose remote size and version all equal the
/// baseline's is skipped; a local change alone uploads, a remote change
/// alone downloads, and a change on both sides is a conflict.
pub proof fn law_change_detection(j: JournalEntry, l: Local, r: Remote, stubbed: bool, lazy: bool)
    ensures
        ({
            let lc = l.size != j.size || l.mtime_millis != j.mtime_millis;
            let rc = opt_view(r.version) != opt_view(j.remote_version) || r.size != j.size;
            spec_decide(Some(j), Some(l), Some(r), stubbed, lazy) == if !lc && !rc {
                Action::Skip
            } else if lc && !rc {
                Action::Upload
            } else if !lc && rc {
                Action::Download
            } else {
                Action::Conflict
            }
        }),
{
}

} // verus!
