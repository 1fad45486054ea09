use wunderdrive::config::Config;
use wunderdrive::engine::{
    loop_step, snapshot_files, Cmd, EngineState, FileStatus, LoopAction, LoopEvent, LoopState, Snapshot, Status,
    ACTIVITY_CAP,
};
use wunderdrive::journal::JournalEntry;
use wunderdrive::keyed::KeyedMap;
use wunderdrive::mirror::{SyncEvent, SyncOutcome};
use wunderdrive::reconcile::Local;

fn je(size: u64, mtime: u64) -> JournalEntry {
    JournalEntry { blake3: [0; 32], size, mtime_millis: mtime, remote_version: None }
}

#[test]
fn snapshot_statuses() {
    let journal = wunderdrive::keyed::map(vec![
        ("same".to_string(), je(1, 1)),
        ("edited".to_string(), je(1, 1)),
        ("gone".to_string(), je(7, 8)),
        ("flagged".to_string(), je(1, 1)),
    ]);
    let local = wunderdrive::keyed::map(vec![
        ("same".to_string(), Local { size: 1, mtime_millis: 1 }),
        ("edited".to_string(), Local { size: 2, mtime_millis: 1 }),
        ("new".to_string(), Local { size: 3, mtime_millis: 4 }),
        ("flagged".to_string(), Local { size: 1, mtime_millis: 1 }),
    ]);
    let conflicts = wunderdrive::keyed::map(vec![("flagged".to_string(), ())]);
    let files = snapshot_files(&journal, &local, &conflicts);
    let keys: Vec<&str> = files.iter().map(|f| f.key.as_str()).collect();
    assert_eq!(keys, vec!["edited", "flagged", "gone", "new", "same"]);
    assert_eq!(files[0].status, FileStatus::PendingUpload);
    assert_eq!(files[1].status, FileStatus::Conflict);
    assert_eq!(files[2].status, FileStatus::DeletedPending);
    assert_eq!((files[2].size, files[2].mtime_millis), (7, 8));
    assert_eq!(files[3].status, FileStatus::NewLocal);
    assert_eq!(files[4].status, FileStatus::Synced);
}

#[test]
fn activity_is_numbered_and_filtered() {
    let mut s = EngineState::new();
    s.record_at(&SyncEvent::Started, 1);
    s.record_at(&SyncEvent::Uploaded("a".to_string()), 2);
    s.record_at(&SyncEvent::Conflict("b".to_string()), 3);
    s.record_at(&SyncEvent::Finished(SyncOutcome::default()), 4);
    assert_eq!(s.seq, 2);
    let all = s.activity(0);
    assert_eq!(all.len(), 2);
    assert_eq!((all[0].seq, all[0].kind.as_str(), all[0].key.as_str(), all[0].ts_millis), (1, "uploaded", "a", 2));
    assert_eq!((all[1].seq, all[1].kind.as_str(), all[1].key.as_str()), (2, "conflict", "b"));
    assert_eq!(s.activity(1).len(), 1);
    assert!(s.conflicts.contains_key("b"));
    s.clear_conflict("b");
    assert!(!s.conflicts.contains_key("b"));
}

#[test]
fn activity_log_is_capped() {
    let mut s = EngineState::new();
    for i in 0..(ACTIVITY_CAP + 5) {
        s.record_at(&SyncEvent::DeletedLocal(format!("k{i}")), i as u64);
    }
    let all = s.activity(0);
    assert_eq!(all.len(), ACTIVITY_CAP);
    assert_eq!(all[0].seq, 6);
    assert_eq!(all[ACTIVITY_CAP - 1].seq, (ACTIVITY_CAP + 5) as u64);
}

#[test]
fn error_events_are_logged_by_key() {
    let mut s = EngineState::new();
    s.record_at(&SyncEvent::Error("x".to_string(), "boom".to_string()), 9);
    let all = s.activity(0);
    assert_eq!(all[0].kind, "error");
    assert_eq!(all[0].key, "x");
}

#[test]
fn status_reflects_config() {
    let cfg = Config {
        endpoint: Some("https://e".to_string()),
        region: "r".to_string(),
        bucket: "b".to_string(),
        prefix: "p/".to_string(),
        local_root: "/m".to_string(),
        remote_poll_secs: 45,
        local_rescan_secs: 300,
        lazy: true,
    };
    let mut s = EngineState::new();
    s.paused = true;
    let st = s.status(&cfg);
    assert!(st.paused);
    assert_eq!(st.bucket, "b");
    assert_eq!(st.endpoint.as_deref(), Some("https://e"));
    assert_eq!(st.local_root, "/m");
    let snap = s.snapshot(&KeyedMap::new(), &KeyedMap::new());
    assert!(snap.paused);
    assert!(snap.files.is_empty());
}

#[test]
fn defaults_are_empty() {
    let s = Snapshot::default();
    assert!(!s.paused && s.last_sync_millis.is_none() && s.files.is_empty());
    let st = Status::default();
    assert!(!st.paused && st.bucket.is_empty());
}

#[test]
fn sync_loop_steps() {
    let run = LoopState { paused: false, debounce_armed: false };
    let paused = LoopState { paused: true, debounce_armed: false };
    assert_eq!(loop_step(run, LoopEvent::RemotePoll), (run, LoopAction::RunSync));
    assert_eq!(loop_step(paused, LoopEvent::RemotePoll), (paused, LoopAction::Idle));
    assert_eq!(loop_step(paused, LoopEvent::Command(Cmd::SyncNow)).1, LoopAction::RunSync);
    let (armed, a) = loop_step(run, LoopEvent::WatchActivity);
    assert_eq!(a, LoopAction::ArmDebounce);
    assert_eq!(loop_step(armed, LoopEvent::DebounceElapsed), (run, LoopAction::RunSync));
    assert_eq!(loop_step(run, LoopEvent::DebounceElapsed), (run, LoopAction::Idle));
    let (p, _) = loop_step(run, LoopEvent::Command(Cmd::Pause));
    assert!(p.paused);
    let (r, _) = loop_step(p, LoopEvent::Command(Cmd::Resume));
    assert_eq!(r, run);
    assert_eq!(loop_step(run, LoopEvent::Command(Cmd::Shutdown)).1, LoopAction::Stop);
}
