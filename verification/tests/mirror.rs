use wunderdrive::journal::{JournalEntry, StubEntry};
use wunderdrive::mirror::{
    compare_identical, digest_eq, entry_for, materialized_version, record_result, stub_for_baseline,
    stub_for_remote, tally_action, upload_unchanged, use_multipart, SyncOutcome, MULTIPLE_PART_THRESHOLD,
};
use wunderdrive::reconcile::{Action, Remote};

#[test]
fn outcome_tally() {
    let mut out = SyncOutcome::default();
    for a in [
        Action::Skip,
        Action::Upload,
        Action::Download,
        Action::Conflict,
        Action::DeleteRemote,
        Action::DeleteLocal,
    ] {
        tally_action(&a, &mut out);
    }
    assert_eq!(out.skipped, 1);
    assert_eq!(out.uploaded, 1);
    assert_eq!(out.downloaded, 1);
    assert_eq!(out.conflicts, 1);
    assert_eq!(out.deleted_remote, 1);
    assert_eq!(out.deleted_local, 1);
}

#[test]
fn bookkeeping_actions_are_not_counted() {
    let mut out = SyncOutcome::new();
    for a in [Action::RecordStub, Action::Dematerialize, Action::DropJournal, Action::Compare] {
        tally_action(&a, &mut out);
    }
    assert_eq!(out, SyncOutcome::default());
    tally_action(&Action::UploadNew, &mut out);
    tally_action(&Action::DownloadNew, &mut out);
    assert_eq!(out.uploaded, 1);
    assert_eq!(out.downloaded, 1);
}

#[test]
fn failed_actions_count_as_errors() {
    let mut out = SyncOutcome::new();
    record_result(&mut out, &Action::Upload, false);
    record_result(&mut out, &Action::Upload, true);
    assert_eq!(out.errors, 1);
    assert_eq!(out.uploaded, 1);
}

#[test]
fn unchanged_upload_detected_by_hash() {
    let base = JournalEntry { blake3: [7; 32], size: 1, mtime_millis: 1, remote_version: None };
    assert!(upload_unchanged(Some(&base), &[7; 32]));
    assert!(!upload_unchanged(Some(&base), &[8; 32]));
    assert!(!upload_unchanged(None, &[7; 32]));
}

#[test]
fn compare_needs_matching_remote_hash() {
    assert!(compare_identical(&[1; 32], Some(&[1; 32])));
    assert!(!compare_identical(&[1; 32], Some(&[2; 32])));
    assert!(!compare_identical(&[1; 32], None));
    let mut a = [0u8; 32];
    let b = [0u8; 32];
    assert!(digest_eq(&a, &b));
    a[31] = 1;
    assert!(!digest_eq(&a, &b));
}

#[test]
fn stubs_carry_size_and_version() {
    let r = Remote { size: 12, version: Some("v3".to_string()) };
    let s = stub_for_remote(&r);
    assert_eq!(s, StubEntry { size: 12, version: Some("v3".to_string()) });
    let j = JournalEntry { blake3: [0; 32], size: 5, mtime_millis: 9, remote_version: None };
    assert_eq!(stub_for_baseline(&j), StubEntry { size: 5, version: None });
}

#[test]
fn materialize_prefers_fetched_version() {
    let s = StubEntry { size: 1, version: Some("old".to_string()) };
    assert_eq!(materialized_version(Some("new".to_string()), &s), Some("new".to_string()));
    assert_eq!(materialized_version(None, &s), Some("old".to_string()));
}

#[test]
fn entry_fields() {
    let e = entry_for([3; 32], 10, 20, Some("v".to_string()));
    assert_eq!(e, JournalEntry { blake3: [3; 32], size: 10, mtime_millis: 20, remote_version: Some("v".to_string()) });
}

#[test]
fn multipart_above_eight_mib() {
    assert_eq!(MULTIPLE_PART_THRESHOLD, 8 * 1024 * 1024);
    assert!(!use_multipart(8 * 1024 * 1024));
    assert!(use_multipart(8 * 1024 * 1024 + 1));
    assert!(!use_multipart(0));
}
