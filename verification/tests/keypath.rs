use std::path::Path;
use wunderdrive::error::Error;
use wunderdrive::keypath::{
    conflict_key, conflict_name, conflict_sibling_of, find_conflict_sibling, key_for_local, local_for_key,
};

#[test]
fn key_path_roundtrip() {
    let root = Path::new("/tmp/root");
    let lp = root.join("sub").join("a.txt");
    let key = key_for_local("/tmp/root", lp.to_str().unwrap()).unwrap();
    assert_eq!(key, "sub/a.txt");
    assert_eq!(Path::new(&local_for_key("/tmp/root", &key)), lp);
}

#[test]
fn conflict_key_keeps_dir_and_ext() {
    let k = conflict_key("docs/report.pdf");
    let p = Path::new(&k);
    assert_eq!(p.parent().unwrap(), Path::new("docs"));
    assert!(p.file_name().unwrap().to_str().unwrap().starts_with("report (conflict "));
    assert_eq!(p.extension().unwrap(), "pdf");
}

#[test]
fn conflict_key_no_ext() {
    let k = conflict_key("README");
    assert!(k.starts_with("README (conflict "));
}

#[test]
fn conflict_name_exact() {
    assert_eq!(conflict_name("docs/report.pdf", "20240101-120000"), "docs/report (conflict 20240101-120000).pdf");
    assert_eq!(conflict_name("README", "T"), "README (conflict T)");
    assert_eq!(conflict_name(".bashrc", "T"), ".bashrc (conflict T)");
    assert_eq!(conflict_name("a/b.tar.gz", "T"), "a/b.tar (conflict T).gz");
}

#[test]
fn conflict_siblings_found() {
    assert!(conflict_sibling_of("docs/report.pdf", "docs/report (conflict 1).pdf"));
    assert!(!conflict_sibling_of("docs/report.pdf", "docs/other.pdf"));
    let keys = vec!["a.txt".to_string(), "docs/report (conflict 9).pdf".to_string()];
    assert_eq!(find_conflict_sibling(&keys, "docs/report.pdf"), Some("docs/report (conflict 9).pdf".to_string()));
    assert_eq!(find_conflict_sibling(&keys, "zzz.txt"), None);
}

#[test]
fn key_for_local_outside_root_is_an_error() {
    match key_for_local("/tmp/root", "/tmp/other/a.txt") {
        Err(Error::Other(m)) => assert_eq!(m, "path outside mirror root"),
        other => panic!("unexpected: {other:?}"),
    }
}

#[test]
fn key_path_round_trip_various_roots() {
    for root in ["/tmp/root", "/tmp/root/", "rel/dir", "", "."] {
        for key in ["a.txt", "x/y/z.md", "deep/er/still/f"] {
            let local = local_for_key(root, key);
            assert_eq!(key_for_local(root, &local).unwrap(), key, "root {root:?} key {key:?}");
        }
    }
}

#[test]
fn local_for_key_joins_like_pathbuf() {
    assert_eq!(local_for_key("/r", "a/b"), "/r/a/b");
    assert_eq!(local_for_key("/r/", "a"), "/r/a");
    assert_eq!(local_for_key("", "a/b"), "a/b");
}

#[test]
fn journal_mtime_as_instant() {
    let e = wunderdrive::journal::JournalEntry { blake3: [0u8; 32], size: 1, mtime_millis: 1500, remote_version: None };
    assert_eq!(e.mtime(), Some(std::time::UNIX_EPOCH + std::time::Duration::from_millis(1500)));
}

#[test]
fn conflict_names_read_keys_as_paths() {
    assert_eq!(conflict_name("docs/", "T"), "docs (conflict T)");
    assert_eq!(conflict_name("docs/.", "T"), "docs (conflict T)");
    assert_eq!(conflict_name("a/b/", "T"), "a/b (conflict T)");
    assert_eq!(conflict_name("a//b.pdf", "T"), "a/b (conflict T).pdf");
    assert_eq!(conflict_name("a/./b", "T"), "a/b (conflict T)");
    assert_eq!(conflict_name("/x.txt", "T"), "/x (conflict T).txt");
    assert_eq!(conflict_name("", "T"), "file (conflict T)");
    assert_eq!(conflict_name("..", "T"), "file (conflict T)");
    assert!(conflict_sibling_of("docs/", "docs (conflict 1)"));
    assert!(conflict_sibling_of("a/b/", "a/b (conflict 1).x"));
}

#[test]
fn conflict_key_stamp_has_no_slash() {
    let k = conflict_key("docs/report.pdf");
    assert!(k.starts_with("docs/report (conflict "));
    assert!(conflict_sibling_of("docs/report.pdf", &k));
    assert!(!k["docs/".len()..].contains('/'));
}
