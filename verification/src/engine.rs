//! The engine's state and decisions: the S3-free local snapshot, the
//! activity log, the status summary and the sync loop's scheduling.
//!
//! The daemon owns the tasks, timers and channels; what they do on each
//! event is decided here.

use vstd::prelude::*;
use std::collections::VecDeque;
use crate::config::Config;
use crate::journal::JournalEntry;
use crate::keyed::{insert_sorted, lemma_push_to_set, lookup, strictly_sorted, views, KeyedMap};
use crate::mirror::SyncEvent;
use crate::reconcile::Local;
use crate::text::{clone_opt, opt_view, owned};

verus! {

/// The most activity entries kept.
pub const ACTIVITY_CAP: usize = 2000;

/// Per-file status as seen by a (S3-free) local snapshot.
#[derive(Debug, Clone, Copy, PartialEq, Eq, Structural)]
pub enum FileStatus {
    /// In journal and matching local mtime/size.
    Synced,
    /// In journal but local differs: will upload on next sync.
    PendingUpload,
    /// Local-only, never uploaded.
    NewLocal,
    /// Was synced, now missing locally: delete pending.
    DeletedPending,
    /// Known conflict (both sides changed).
    Conflict,
    /// Listed remotely, absent locally (a lazy-download stub).
    RemoteOnly,
}

impl Default for FileStatus {
    fn default() -> (s: FileStatus)
        ensures
            s == FileStatus::NewLocal,
    {
        FileStatus::NewLocal
    }
}

/// One file in a [`Snapshot`].
#[derive(Debug, Clone, PartialEq, Eq)]
pub struct FileStat {
    pub key: String,
    pub size: u64,
    pub mtime_millis: u64,
    pub status: FileStatus,
}

/// A pure-local view of the mirror: never touches S3.
#[derive(Debug, Clone)]
pub struct Snapshot {
    pub paused: bool,
    pub last_sync_millis: Option<u64>,
    pub files: Vec<FileStat>,
}

impl Snapshot {
    /// An empty snapshot, not paused, never synced.
    pub fn new() -> (s: Snapshot)
        ensures
            !s.paused,
            s.last_sync_millis is None,
            s.files@.len() == 0,
    {
        Snapshot { paused: false, last_sync_millis: None, files: Vec::new() }
    }
}

impl Default for Snapshot {
    fn default() -> (s: Snapshot)
        ensures
            !s.paused,
            s.last_sync_millis is None,
            s.files@.len() == 0,
    {
        Snapshot::new()
    }
}

/// Daemon status summary.
#[derive(Debug, Clone)]
pub struct Status {
    pub paused: bool,
    pub last_sync_millis: Option<u64>,
    pub endpoint: Option<String>,
    pub bucket: String,
    pub prefix: String,
    pub local_root: String,
}

impl Status {
    /// A status with empty fields, not paused, never synced.
    pub fn new() -> (s: Status)
        ensures
            !s.paused,
            s.last_sync_millis is None,
            s.endpoint is None,
            s.bucket@.len() == 0,
            s.prefix@.len() == 0,
            s.local_root@.len() == 0,
    {
        Status {
            paused: false,
            last_sync_millis: None,
            endpoint: None,
            bucket: String::new(),
            prefix: String::new(),
            local_root: String::new(),
        }
    }
}

impl Default for Status {
    fn default() -> (s: Status)
        ensures
            !s.paused,
            s.last_sync_millis is None,
            s.endpoint is None,
            s.bucket@.len() == 0,
            s.prefix@.len() == 0,
            s.local_root@.len() == 0,
    {
        Status::new()
    }
}

/// One activity log line.
#[derive(Debug, Clone)]
pub struct ActivityEntry {
    pub seq: u64,
    pub kind: String,
    pub key: String,
    pub ts_millis: u64,
}

impl ActivityEntry {
    /// A copy of this entry.
    pub fn duplicate(&self) -> (e: ActivityEntry)
        ensures
            e == *self,
    {
        ActivityEntry {
            seq: self.seq,
            kind: self.kind.clone(),
            key: self.key.clone(),
            ts_millis: self.ts_millis,
        }
    }
}

/// The status a key has in the snapshot, from its baseline, its local state
/// and whether a conflict is flagged for it.
pub open spec fn spec_file_status(j: Option<JournalEntry>, l: Option<Local>, conflict: bool) -> FileStatus {
    if conflict {
        FileStatus::Conflict
    } else {
        match (j, l) {
            (Some(j), Some(l)) => if j.size == l.size && j.mtime_millis == l.mtime_millis {
                FileStatus::Synced
            } else {
                FileStatus::PendingUpload
            },
            (None, Some(_)) => FileStatus::NewLocal,
            _ => FileStatus::DeletedPending,
        }
    }
}

/// The size and mtime shown for a key: the local file's when there is one,
/// else the baseline's.
pub open spec fn shown_size(j: Option<JournalEntry>, l: Option<Local>) -> u64 {
    match l {
        Some(l) => l.size,
        None => j->0.size,
    }
}

pub open spec fn shown_mtime(j: Option<JournalEntry>, l: Option<Local>) -> u64 {
    match l {
        Some(l) => l.mtime_millis,
        None => j->0.mtime_millis,
    }
}

/// The snapshot row of key `k`.
pub open spec fn snapshot_row(
    journal: Map<Seq<char>, JournalEntry>,
    local: Map<Seq<char>, Local>,
    conflicts: Set<Seq<char>>,
    f: FileStat,
) -> bool {
    let j = lookup(journal, f.key@);
    let l = lookup(local, f.key@);
    &&& f.status == spec_file_status(j, l, conflicts.contains(f.key@))
    &&& f.size == shown_size(j, l)
    &&& f.mtime_millis == shown_mtime(j, l)
}

/// The rows of the local snapshot: every key the journal or the local
/// filesystem knows, once each, in increasing `str` order, with its status
/// and the size and mtime shown for it.
pub fn snapshot_files(
    journal: &KeyedMap<JournalEntry>,
    local: &KeyedMap<Local>,
    conflicts: &KeyedMap<()>,
) -> (files: Vec<FileStat>)
    ensures
        strictly_sorted(files@.map_values(|f: FileStat| f.key@)),
        files@.map_values(|f: FileStat| f.key@).to_set() == journal@.dom() + local@.dom(),
        forall|i: int|
            0 <= i < files@.len() ==> snapshot_row(
                journal@,
                local@,
                conflicts@.dom(),
                #[trigger] files@[i],
            ),
{
    let mut keys: Vec<String> = Vec::new();
    let jk = journal.keys();
    let lk = local.keys();
    let mut a: usize = 0;
    while a < jk.len()
        invariant
            a <= jk@.len(),
            strictly_sorted(views(keys@)),
            views(keys@).to_set() == views(jk@).take(a as int).to_set(),
        decreases jk@.len() - a,
    {
        insert_sorted(&mut keys, jk[a].clone());
        proof {
            assert(views(jk@).take(a + 1) =~= views(jk@).take(a as int).push(jk@[a as int]@));
            lemma_push_to_set(views(jk@).take(a as int), jk@[a as int]@);
        }
        a += 1;
    }
    assert(views(jk@).take(jk@.len() as int) =~= views(jk@));
    let mut b: usize = 0;
    while b < lk.len()
        invariant
            b <= lk@.len(),
            strictly_sorted(views(keys@)),
            views(keys@).to_set() == journal@.dom() + views(lk@).take(b as int).to_set(),
        decreases lk@.len() - b,
    {
        insert_sorted(&mut keys, lk[b].clone());
        proof {
            assert(views(lk@).take(b + 1) =~= views(lk@).take(b as int).push(lk@[b as int]@));
            lemma_push_to_set(views(lk@).take(b as int), lk@[b as int]@);
            assert(views(keys@).to_set() =~= journal@.dom() + views(lk@).take(b + 1).to_set());
        }
        b += 1;
    }
    assert(views(lk@).take(lk@.len() as int) =~= views(lk@));
    let mut files: Vec<FileStat> = Vec::new();
    let mut i: usize = 0;
    while i < keys.len()
        invariant
            i <= keys@.len(),
            files@.len() == i,
            forall|k: int| 0 <= k < i ==> #[trigger] files@[k].key@ == keys@[k]@,
            forall|k: int|
                0 <= k < i ==> snapshot_row(journal@, local@, conflicts@.dom(), #[trigger] files@[k]),
            views(keys@).to_set() == journal@.dom() + local@.dom(),
        decreases keys@.len() - i,
    {
        let key = keys[i].clone();
        let j = journal.get(key.as_str());
        let l = local.get(key.as_str());
        proof {
            assert(views(keys@)[i as int] == key@);
            assert(views(keys@).to_set().contains(key@));
        }
        let flagged = conflicts.contains_key(key.as_str());
        let status = if flagged {
            FileStatus::Conflict
        } else {
            match (j, l) {
                (Some(je), Some(le)) => {
                    if je.size == le.size && je.mtime_millis == le.mtime_millis {
                        FileStatus::Synced
                    } else {
                        FileStatus::PendingUpload
                    }
                },
                (None, Some(_)) => FileStatus::NewLocal,
                _ => FileStatus::DeletedPending,
            }
        };
        let (size, mtime) = match l {
            Some(le) => (le.size, le.mtime_millis),
            None => {
                let je = j.unwrap();
                (je.size, je.mtime_millis)
            },
        };
        let ghost kv = key@;
        let ghost before = files@;
        files.push(FileStat { key, size, mtime_millis: mtime, status });
        assert forall|k: int| 0 <= k <= i implies #[trigger] files@[k].key@ == keys@[k]@ by {
            if k < i {
                assert(files@[k] == before[k]);
            }
        }
        assert forall|k: int| 0 <= k <= i implies snapshot_row(
            journal@,
            local@,
            conflicts@.dom(),
            #[trigger] files@[k],
        ) by {
            if k < i {
                assert(files@[k] == before[k]);
            }
        }
        i += 1;
    }
    proof {
        assert(files@.map_values(|f: FileStat| f.key@) =~= views(keys@));
    }
    files
}

/// What one sync event adds to the activity log: its kind and key; none for
/// the start and finish markers.
pub open spec fn event_line(ev: SyncEvent) -> Option<(Seq<char>, Seq<char>)> {
    match ev {
        SyncEvent::Started => None,
        SyncEvent::Finished(_) => None,
        SyncEvent::Uploaded(k) => Some(("uploaded"@, k@)),
        SyncEvent::Downloaded(k) => Some(("downloaded"@, k@)),
        SyncEvent::Conflict(k) => Some(("conflict"@, k@)),
        SyncEvent::DeletedRemote(k) => Some(("deleted_remote"@, k@)),
        SyncEvent::DeletedLocal(k) => Some(("deleted_local"@, k@)),
        SyncEvent::Error(k, _) => Some(("error"@, k@)),
    }
}

/// The last `ACTIVITY_CAP` entries of `s`.
pub open spec fn capped<T>(s: Seq<T>) -> Seq<T> {
    if s.len() > ACTIVITY_CAP {
        s.skip(s.len() - ACTIVITY_CAP)
    } else {
        s
    }
}

/// Shared engine state, mutated by the sync loop and read by clients.
pub struct EngineState {
    pub paused: bool,
    pub last_sync_millis: Option<u64>,
    /// Keys flagged as conflicts since they were last resolved.
    pub conflicts: KeyedMap<()>,
    /// The most recent activity, oldest first.
    pub activity: VecDeque<ActivityEntry>,
    /// The sequence number of the last activity entry.
    pub seq: u64,
}

/// The system clock in milliseconds since the Unix epoch (0 before it).
/// Depends on the clock: nothing is stated of it.
pub(crate) fn now_millis() -> u64 {
    millis_after_epoch(&system_now())
}

/// `SystemTime::now`: the clock's reading; nothing is stated of it.
#[verifier::external_body]
fn system_now() -> std::time::SystemTime {
    std::time::SystemTime::now()
}

/// `SystemTime::duration_since(UNIX_EPOCH)`, in whole milliseconds (0 for
/// an instant before the epoch). Nothing is stated: `SystemTime` is opaque
/// to the library.
#[verifier::external_body]
fn millis_after_epoch(t: &std::time::SystemTime) -> u64 {
    t.duration_since(std::time::UNIX_EPOCH).map(|d| d.as_millis() as u64).unwrap_or(0)
}

impl EngineState {
    /// Fresh state: not paused, never synced, no conflicts, no activity.
    pub fn new() -> (s: EngineState)
        ensures
            !s.paused,
            s.last_sync_millis is None,
            s.conflicts@ == Map::<Seq<char>, ()>::empty(),
            s.activity@.len() == 0,
            s.seq == 0,
    {
        EngineState {
            paused: false,
            last_sync_millis: None,
            conflicts: KeyedMap::new(),
            activity: VecDeque::new(),
            seq: 0,
        }
    }

    /// Log one sync event at time `ts_millis`: a conflict is flagged, and
    /// every event but the start and finish markers becomes a numbered
    /// activity line; only the last `ACTIVITY_CAP` lines are kept.
    pub fn record_at(&mut self, ev: &SyncEvent, ts_millis: u64)
        requires
            old(self).seq < u64::MAX,
        ensures
            final(self).paused == old(self).paused,
            final(self).last_sync_millis == old(self).last_sync_millis,
            match *ev {
                SyncEvent::Conflict(k) => final(self).conflicts@ == old(self).conflicts@.insert(k@, ()),
                _ => final(self).conflicts@ == old(self).conflicts@,
            },
            match event_line(*ev) {
                None => final(self).seq == old(self).seq && final(self).activity@
                    == old(self).activity@,
                Some((kind, key)) => {
                    &&& final(self).seq == old(self).seq + 1
                    &&& final(self).activity@.len() == capped(
                        old(self).activity@.push(final(self).activity@.last()),
                    ).len()
                    &&& final(self).activity@ == capped(
                        old(self).activity@.push(final(self).activity@.last()),
                    )
                    &&& final(self).activity@.last().seq == final(self).seq
                    &&& final(self).activity@.last().kind@ == kind
                    &&& final(self).activity@.last().key@ == key
                    &&& final(self).activity@.last().ts_millis == ts_millis
                },
            },
    {
        let (kind, key): (&str, &String) = match ev {
            SyncEvent::Started => return,
            SyncEvent::Finished(_) => return,
            SyncEvent::Uploaded(k) => ("uploaded", k),
            SyncEvent::Downloaded(k) => ("downloaded", k),
            SyncEvent::Conflict(k) => {
                self.conflicts.insert(k.clone(), ());
                ("conflict", k)
            },
            SyncEvent::DeletedRemote(k) => ("deleted_remote", k),
            SyncEvent::DeletedLocal(k) => ("deleted_local", k),
            SyncEvent::Error(k, _) => ("error", k),
        };
        let seq = self.seq + 1;
        self.seq = seq;
        let entry = ActivityEntry { seq, kind: owned(kind), key: key.clone(), ts_millis };
        let ghost pushed = self.activity@.push(entry);
        let ghost pre_conflicts = self.conflicts@;
        self.activity.push_back(entry);
        while self.activity.len() > ACTIVITY_CAP
            invariant
                pushed.len() > 0,
                self.activity@.len() <= pushed.len(),
                self.activity@ == pushed.skip(pushed.len() - self.activity@.len()),
                pushed.len() <= ACTIVITY_CAP ==> self.activity@ == pushed,
                pushed.len() > ACTIVITY_CAP ==> self.activity@.len() >= ACTIVITY_CAP,
                self.paused == old(self).paused,
                self.last_sync_millis == old(self).last_sync_millis,
                self.conflicts@ == pre_conflicts,
                self.seq == seq,
            decreases self.activity@.len(),
        {
            let _ = self.activity.pop_front();
            assert(self.activity@ =~= pushed.skip(pushed.len() - self.activity@.len()));
        }
        proof {
            if pushed.len() > ACTIVITY_CAP {
                assert(self.activity@.len() == ACTIVITY_CAP);
            }
            assert(self.activity@ =~= capped(pushed));
            assert(self.activity@.last() == pushed.last());
        }
    }

    /// Log one sync event, stamped with the current time.
    pub fn record_activity(&mut self, ev: &SyncEvent)
        requires
            old(self).seq < u64::MAX,
        ensures
            final(self).paused == old(self).paused,
            final(self).last_sync_millis == old(self).last_sync_millis,
            match *ev {
                SyncEvent::Conflict(k) => final(self).conflicts@ == old(self).conflicts@.insert(k@, ()),
                _ => final(self).conflicts@ == old(self).conflicts@,
            },
            match event_line(*ev) {
                None => final(self).seq == old(self).seq && final(self).activity@
                    == old(self).activity@,
                Some((kind, key)) => {
                    &&& final(self).seq == old(self).seq + 1
                    &&& final(self).activity@ == capped(
                        old(self).activity@.push(final(self).activity@.last()),
                    )
                    &&& final(self).activity@.last().seq == final(self).seq
                    &&& final(self).activity@.last().kind@ == kind
                    &&& final(self).activity@.last().key@ == key
                },
            },
    {
        let ts = now_millis();
        self.record_at(ev, ts);
    }

    /// The activity entries numbered after `since`, oldest first.
    pub fn activity(&self, since: u64) -> (r: Vec<ActivityEntry>)
        ensures
            r@ == self.activity@.filter(|e: ActivityEntry| e.seq > since),
    {
        let mut out: Vec<ActivityEntry> = Vec::new();
        let mut i: usize = 0;
        let ghost all = self.activity@;
        let ghost pred = |e: ActivityEntry| e.seq > since;
        while i < self.activity.len()
            invariant
                i <= all.len(),
                all == self.activity@,
                pred == (|e: ActivityEntry| e.seq > since),
                out@ == all.take(i as int).filter(pred),
            decreases all.len() - i,
        {
            proof {
                reveal(Seq::filter);
                assert(all.take(i + 1).drop_last() =~= all.take(i as int));
            }
            let e = &self.activity[i];
            if e.seq > since {
                out.push(e.duplicate());
            }
            i += 1;
        }
        assert(all.take(all.len() as int) =~= all);
        out
    }

    /// Dismiss the conflict flag of `key`.
    pub fn clear_conflict(&mut self, key: &str)
        ensures
            final(self).conflicts@ == old(self).conflicts@.remove(key@),
            final(self).paused == old(self).paused,
            final(self).last_sync_millis == old(self).last_sync_millis,
            final(self).activity@ == old(self).activity@,
            final(self).seq == old(self).seq,
    {
        self.conflicts.remove(key);
    }

    /// The daemon status for configuration `cfg`.
    pub fn status(&self, cfg: &Config) -> (s: Status)
        ensures
            s.paused == self.paused,
            s.last_sync_millis == self.last_sync_millis,
            opt_view(s.endpoint) == opt_view(cfg.endpoint),
            s.bucket@ == cfg.bucket@,
            s.prefix@ == cfg.prefix@,
            s.local_root@ == cfg.local_root@,
    {
        Status {
            paused: self.paused,
            last_sync_millis: self.last_sync_millis,
            endpoint: clone_opt(&cfg.endpoint),
            bucket: cfg.bucket.clone(),
            prefix: cfg.prefix.clone(),
            local_root: cfg.local_root.clone(),
        }
    }

    /// The local snapshot: pause flag, last sync time and the rows of
    /// [`snapshot_files`].
    pub fn snapshot(&self, journal: &KeyedMap<JournalEntry>, local: &KeyedMap<Local>) -> (s: Snapshot)
        ensures
            s.paused == self.paused,
            s.last_sync_millis == self.last_sync_millis,
            strictly_sorted(s.files@.map_values(|f: FileStat| f.key@)),
            s.files@.map_values(|f: FileStat| f.key@).to_set() == journal@.dom() + local@.dom(),
            forall|i: int|
                0 <= i < s.files@.len() ==> snapshot_row(
                    journal@,
                    local@,
                    self.conflicts@.dom(),
                    #[trigger] s.files@[i],
                ),
    {
        Snapshot {
            paused: self.paused,
            last_sync_millis: self.last_sync_millis,
            files: snapshot_files(journal, local, &self.conflicts),
        }
    }
}

/// A command to the sync loop.
#[derive(Debug, Clone, Copy, PartialEq, Eq, Structural)]
pub enum Cmd {
    SyncNow,
    Pause,
    Resume,
    Shutdown,
}

/// What wakes the sync loop.
#[derive(Debug, Clone, Copy, PartialEq, Eq, Structural)]
pub enum LoopEvent {
    /// A command from a client.
    Command(Cmd),
    /// The file watcher saw something change under the mirror root.
    WatchActivity,
    /// The debounce window after watcher activity elapsed.
    DebounceElapsed,
    /// Time for the periodic remote poll.
    RemotePoll,
    /// Time for the periodic full local rescan.
    Rescan,
}

/// What the sync loop does next.
#[derive(Debug, Clone, Copy, PartialEq, Eq, Structural)]
pub enum LoopAction {
    /// Run one sync pass now.
    RunSync,
    /// (Re)start the debounce window.
    ArmDebounce,
    /// Stop the loop (and the indexer).
    Stop,
    /// Nothing to do.
    Idle,
}

/// The sync loop's own state.
#[derive(Debug, Clone, Copy, PartialEq, Eq, Structural)]
pub struct LoopState {
    pub paused: bool,
    /// A sync is pending its debounce window.
    pub debounce_armed: bool,
}

/// The loop's next state and action for one event.
pub open spec fn spec_loop_step(s: LoopState, ev: LoopEvent) -> (LoopState, LoopAction) {
    match ev {
        LoopEvent::Command(Cmd::Shutdown) => (s, LoopAction::Stop),
        LoopEvent::Command(Cmd::SyncNow) => (s, LoopAction::RunSync),
        LoopEvent::Command(Cmd::Pause) => (LoopState { paused: true, ..s }, LoopAction::Idle),
        LoopEvent::Command(Cmd::Resume) => (LoopState { paused: false, ..s }, LoopAction::Idle),
        LoopEvent::WatchActivity => (LoopState { debounce_armed: true, ..s }, LoopAction::ArmDebounce),
        LoopEvent::DebounceElapsed => if s.debounce_armed {
            (
                LoopState { debounce_armed: false, ..s },
                if s.paused {
                    LoopAction::Idle
                } else {
                    LoopAction::RunSync
                },
            )
        } else {
            (s, LoopAction::Idle)
        },
        LoopEvent::RemotePoll | LoopEvent::Rescan => (
            s,
            if s.paused {
                LoopAction::Idle
            } else {
                LoopAction::RunSync
            },
        ),
    }
}

/// One step of the sync loop: local watch (debounced), remote poll, full
/// rescan and explicit commands, gated by pause. An explicit sync runs even
/// while paused.
pub fn loop_step(s: LoopState, ev: LoopEvent) -> (r: (LoopState, LoopAction))
    ensures
        r == spec_loop_step(s, ev),
{
    match ev {
        LoopEvent::Command(Cmd::Shutdown) => (s, LoopAction::Stop),
        LoopEvent::Command(Cmd::SyncNow) => (s, LoopAction::RunSync),
        LoopEvent::Command(Cmd::Pause) => (LoopState { paused: true, debounce_armed: s.debounce_armed }, LoopAction::Idle),
        LoopEvent::Command(Cmd::Resume) => (LoopState { paused: false, debounce_armed: s.debounce_armed }, LoopAction::Idle),
        LoopEvent::WatchActivity => (LoopState { paused: s.paused, debounce_armed: true }, LoopAction::ArmDebounce),
        LoopEvent::DebounceElapsed => {
            if s.debounce_armed {
                let next = LoopState { paused: s.paused, debounce_armed: false };
                if s.paused {
                    (next, LoopAction::Idle)
                } else {
                    (next, LoopAction::RunSync)
                }
            } else {
                (s, LoopAction::Idle)
            }
        },
        LoopEvent::RemotePoll | LoopEvent::Rescan => {
            if s.paused {
                (s, LoopAction::Idle)
            } else {
                (s, LoopAction::RunSync)
            }
        },
    }
}

/// While paused, nothing but an explicit sync command starts a sync.
pub proof fn law_pause_gates_sync(s: LoopState, ev: LoopEvent)
    requires
        s.paused,
    ensures
        spec_loop_step(s, ev).1 == LoopAction::RunSync ==> ev == LoopEvent::Command(Cmd::SyncNow),
{
}

/// Watcher activity never syncs at once: it (re)arms the debounce window.
pub proof fn law_watch_is_debounced(s: LoopState)
    ensures
        spec_loop_step(s, LoopEvent::WatchActivity).1 == LoopAction::ArmDebounce,
        spec_loop_step(s, LoopEvent::WatchActivity).0.debounce_armed,
{
}

/// Pause then resume leaves the loop as it was.
pub proof fn law_pause_resume(s: LoopState)
    requires
        !s.paused,
    ensures
        spec_loop_step(spec_loop_step(s, LoopEvent::Command(Cmd::Pause)).0, LoopEvent::Command(Cmd::Resume)).0
            == s,
{
}

/// A file's status in the snapshot: a flagged conflict is a conflict;
/// otherwise a file with a baseline is in sync exactly when its size and
/// mtime both equal the baseline's, and pending upload when either differs;
/// a local file without a baseline is new; a baseline without a local file
/// is a pending delete.
pub proof fn law_snapshot_status(j: JournalEntry, l: Local, conflict: bool)
    ensures
        spec_file_status(Some(j), Some(l), true) == FileStatus::Conflict,
        spec_file_status(None, Some(l), true) == FileStatus::Conflict,
        spec_file_status(Some(j), None, true) == FileStatus::Conflict,
        (spec_file_status(Some(j), Some(l), false) == FileStatus::Synced) <==> (j.size == l.size
            && j.mtime_millis == l.mtime_millis),
        (spec_file_status(Some(j), Some(l), false) == FileStatus::PendingUpload) <==> (j.size != l.size
            || j.mtime_millis != l.mtime_millis),
        spec_file_status(None, Some(l), false) == FileStatus::NewLocal,
        spec_file_status(Some(j), None, false) == FileStatus::DeletedPending,
{
}

/// What each event does to the sync loop. Unpaused, the remote poll and the
/// periodic rescan each run a sync, and so does a debounce window that ends
/// armed (disarming it); paused, none of them does. An explicit sync always
/// runs, shutdown always stops, and none of these changes the pause flag.
pub proof fn law_loop_events(s: LoopState)
    ensures
        spec_loop_step(s, LoopEvent::RemotePoll) == (s, if s.paused { LoopAction::Idle } else { LoopAction::RunSync }),
        spec_loop_step(s, LoopEvent::Rescan) == (s, if s.paused { LoopAction::Idle } else { LoopAction::RunSync }),
        !s.paused ==> spec_loop_step(s, LoopEvent::Rescan).1 == LoopAction::RunSync,
        !s.paused ==> spec_loop_step(s, LoopEvent::RemotePoll).1 == LoopAction::RunSync,
        s.debounce_armed ==> spec_loop_step(s, LoopEvent::DebounceElapsed) == (
            LoopState { paused: s.paused, debounce_armed: false },
            if s.paused { LoopAction::Idle } else { LoopAction::RunSync },
        ),
        !s.debounce_armed ==> spec_loop_step(s, LoopEvent::DebounceElapsed) == (s, LoopAction::Idle),
        spec_loop_step(s, LoopEvent::Command(Cmd::SyncNow)) == (s, LoopAction::RunSync),
        spec_loop_step(s, LoopEvent::Command(Cmd::Shutdown)) == (s, LoopAction::Stop),
        spec_loop_step(s, LoopEvent::Command(Cmd::Pause)) == (
            LoopState { paused: true, debounce_armed: s.debounce_armed },
            LoopAction::Idle,
        ),
        spec_loop_step(s, LoopEvent::Command(Cmd::Resume)) == (
            LoopState { paused: false, debounce_armed: s.debounce_armed },
            LoopAction::Idle,
        ),
{
}

} // verus!
