use wunderdrive::journal::{JournalEntry, StubEntry};
use wunderdrive::keyed::{bmap, KeyedMap};
use wunderdrive::reconcile::{decide, plan, Action, Inputs, Local, Remote};

fn j(blake3: u8, size: u64, mtime: u64, ver: Option<&str>) -> JournalEntry {
    JournalEntry {
        blake3: [blake3; 32],
        size,
        mtime_millis: mtime,
        remote_version: ver.map(str::to_string),
    }
}

fn l(size: u64, mtime: u64) -> Local {
    Local { size, mtime_millis: mtime }
}

fn r(size: u64, ver: Option<&str>) -> Remote {
    Remote { size, version: ver.map(str::to_string) }
}

fn act(j: Option<JournalEntry>, l: Option<Local>, r: Option<Remote>) -> Action {
    decide(j.as_ref(), l.as_ref(), r.as_ref(), None, false)
}

fn act_lazy(j: Option<JournalEntry>, l: Option<Local>, r: Option<Remote>) -> Action {
    decide(j.as_ref(), l.as_ref(), r.as_ref(), None, true)
}

fn stub(size: u64, ver: Option<&str>) -> StubEntry {
    StubEntry { size, version: ver.map(str::to_string) }
}

#[test]
fn all_in_sync_skip() {
    assert_eq!(
        act(Some(j(1, 10, 100, Some("v"))), Some(l(10, 100)), Some(r(10, Some("v")))),
        Action::Skip
    );
}

#[test]
fn local_only_changed_upload() {
    assert_eq!(
        act(Some(j(1, 10, 100, Some("v"))), Some(l(11, 100)), Some(r(10, Some("v")))),
        Action::Upload
    );
    assert_eq!(
        act(Some(j(1, 10, 100, Some("v"))), Some(l(10, 200)), Some(r(10, Some("v")))),
        Action::Upload
    );
}

#[test]
fn remote_only_changed_download() {
    assert_eq!(
        act(Some(j(1, 10, 100, Some("v"))), Some(l(10, 100)), Some(r(10, Some("v2")))),
        Action::Download
    );
    assert_eq!(
        act(Some(j(1, 10, 100, Some("v"))), Some(l(10, 100)), Some(r(11, Some("v")))),
        Action::Download
    );
}

#[test]
fn both_changed_conflict() {
    assert_eq!(
        act(Some(j(1, 10, 100, Some("v"))), Some(l(12, 200)), Some(r(11, Some("v2")))),
        Action::Conflict
    );
}

#[test]
fn local_deleted_delete_remote() {
    assert_eq!(
        act(Some(j(1, 10, 100, Some("v"))), None, Some(r(10, Some("v")))),
        Action::DeleteRemote
    );
}

#[test]
fn remote_deleted_delete_local() {
    assert_eq!(act(Some(j(1, 10, 100, Some("v"))), Some(l(10, 100)), None), Action::DeleteLocal);
}

#[test]
fn both_gone_drop_journal() {
    assert_eq!(act(Some(j(1, 10, 100, Some("v"))), None, None), Action::DropJournal);
}

#[test]
fn first_run_both_sides_compare() {
    assert_eq!(act(None, Some(l(10, 100)), Some(r(10, Some("v")))), Action::Compare);
}

#[test]
fn first_run_local_only_upload_new() {
    assert_eq!(act(None, Some(l(10, 100)), None), Action::UploadNew);
}

#[test]
fn first_run_remote_only_download_new() {
    assert_eq!(act(None, None, Some(r(10, Some("v")))), Action::DownloadNew);
}

#[test]
fn plan_covers_union_and_is_sorted() {
    let journal = wunderdrive::keyed::map(vec![("a".to_string(), j(1, 1, 1, Some("v")))]);
    let local = wunderdrive::keyed::map(vec![("c".to_string(), l(1, 1))]);
    let remote = wunderdrive::keyed::map(vec![("b".to_string(), r(1, Some("v")))]);
    let stubs: KeyedMap<StubEntry> = KeyedMap::new();
    let actions = plan(Inputs {
        journal: &journal,
        local: &local,
        remote: &remote,
        stub: &stubs,
        lazy: false,
    });
    let keys: Vec<&str> = actions.iter().map(|(k, _)| k.as_str()).collect();
    assert_eq!(keys, vec!["a", "b", "c"]);
    assert_eq!(actions[0].1, Action::DropJournal);
    assert_eq!(actions[1].1, Action::DownloadNew);
    assert_eq!(actions[2].1, Action::UploadNew);
}

#[test]
fn version_none_never_dirty_against_none() {
    assert_eq!(act(Some(j(1, 10, 100, None)), Some(l(10, 100)), Some(r(10, None))), Action::Skip);
}

#[test]
fn lazy_remote_only_records_stub() {
    assert_eq!(act_lazy(None, None, Some(r(10, Some("v")))), Action::RecordStub);
}

#[test]
fn non_lazy_remote_only_downloads() {
    assert_eq!(act(None, None, Some(r(10, Some("v")))), Action::DownloadNew);
}

#[test]
fn lazy_remote_only_with_existing_stub_skips() {
    let s = stub(10, Some("v"));
    assert_eq!(decide(None, None, Some(&r(10, Some("v"))), Some(&s), true), Action::Skip);
}

#[test]
fn lazy_local_delete_dematerializes() {
    assert_eq!(
        act_lazy(Some(j(1, 10, 100, Some("v"))), None, Some(r(10, Some("v")))),
        Action::Dematerialize
    );
}

#[test]
fn non_lazy_local_delete_propagates_to_remote() {
    assert_eq!(
        act(Some(j(1, 10, 100, Some("v"))), None, Some(r(10, Some("v")))),
        Action::DeleteRemote
    );
}

// ---- further cases ----

#[test]
fn lazy_never_deletes_remote_on_local_delete() {
    // the lazy-mode promise: a local delete never deletes the remote copy
    for ver in [Some("v"), Some("v2"), None] {
        let a = act_lazy(Some(j(1, 10, 100, Some("v"))), None, Some(r(10, ver)));
        assert_ne!(a, Action::DeleteRemote);
        assert_eq!(a, Action::Dematerialize);
    }
}

#[test]
fn no_baseline_never_deletes() {
    for lazy in [false, true] {
        let cases = [
            decide(None, Some(&l(1, 1)), Some(&r(1, Some("v"))), None, lazy),
            decide(None, Some(&l(1, 1)), None, None, lazy),
            decide(None, None, Some(&r(1, Some("v"))), None, lazy),
            decide(None, None, None, None, lazy),
        ];
        for a in cases {
            assert_ne!(a, Action::DeleteRemote);
            assert_ne!(a, Action::DeleteLocal);
        }
    }
}

#[test]
fn nothing_anywhere_skips() {
    assert_eq!(act(None, None, None), Action::Skip);
}

#[test]
fn version_appearing_is_a_remote_change() {
    assert_eq!(act(Some(j(1, 10, 100, None)), Some(l(10, 100)), Some(r(10, Some("v")))), Action::Download);
}

#[test]
fn plan_lists_each_key_once() {
    let journal = wunderdrive::keyed::map(vec![("k".to_string(), j(1, 10, 100, Some("v")))]);
    let local = wunderdrive::keyed::map(vec![("k".to_string(), l(10, 100)), ("z".to_string(), l(1, 1))]);
    let remote = wunderdrive::keyed::map(vec![("k".to_string(), r(10, Some("v"))), ("m".to_string(), r(3, None))]);
    let stubs = wunderdrive::keyed::map(vec![("m".to_string(), stub(3, None))]);
    let actions = plan(Inputs { journal: &journal, local: &local, remote: &remote, stub: &stubs, lazy: true });
    let keys: Vec<&str> = actions.iter().map(|(k, _)| k.as_str()).collect();
    assert_eq!(keys, vec!["k", "m", "z"]);
    assert_eq!(actions[0].1, Action::Skip);
    assert_eq!(actions[1].1, Action::Skip);
    assert_eq!(actions[2].1, Action::UploadNew);
}

#[test]
fn needs_flags() {
    assert!(Action::Upload.needs_local_hash());
    assert!(Action::Compare.needs_local_hash());
    assert!(!Action::Download.needs_local_hash());
    assert!(Action::Compare.needs_remote_get());
    assert!(!Action::Upload.needs_remote_get());
}

#[test]
fn keyed_map_last_pair_wins() {
    let m = wunderdrive::keyed::map(vec![("a".to_string(), 1u32), ("b".to_string(), 2), ("a".to_string(), 3)]);
    assert_eq!(m.len(), 2);
    assert_eq!(m.get("a"), Some(&3));
    assert_eq!(m.get("b"), Some(&2));
    assert_eq!(m.get("c"), None);
}

#[test]
fn keyed_map_insert_remove() {
    let mut m: KeyedMap<u32> = KeyedMap::new();
    m.insert("x".to_string(), 1);
    m.insert("x".to_string(), 2);
    assert_eq!(m.len(), 1);
    assert!(m.contains_key("x"));
    m.remove("x");
    assert!(!m.contains_key("x"));
    assert_eq!(m.len(), 0);
}

#[test]
fn bmap_is_sorted_and_last_wins() {
    let b = bmap(vec![
        ("c".to_string(), 1u32),
        ("a".to_string(), 2),
        ("b".to_string(), 3),
        ("a".to_string(), 4),
    ]);
    let keys: Vec<&str> = b.iter().map(|(k, _)| k.as_str()).collect();
    assert_eq!(keys, vec!["a", "b", "c"]);
    assert_eq!(b[0].1, 4);
    assert_eq!(b[1].1, 3);
    assert_eq!(b[2].1, 1);
}
