use wunderdrive::config::{default_lazy, default_local_rescan, default_remote_poll, expand_tilde_with, Config};
use wunderdrive::display::{
    ago_text, breadcrumb, date_label, double_click_action, row_date, row_size_label, shows_resolver, RowAction, help_line, items_caption, mirror_name, ms_ago, short_date, sync_label, sync_state,
    SyncState,
};
use wunderdrive::engine::{ActivityEntry, FileStat, FileStatus, Snapshot, Status};
use wunderdrive::error::Error;
use wunderdrive::protocol::Resolution;
use wunderdrive::text::{blank, decimal_string, key_less};
use wunderdrive::tui::{append_activity, key_command, move_selection, refresh_conflicts, Command, Key, ACTIVITY_KEEP};

fn entry(seq: u64) -> ActivityEntry {
    ActivityEntry { seq, kind: "uploaded".to_string(), key: format!("k{seq}"), ts_millis: seq }
}

#[test]
fn tui_selection_wraps() {
    assert_eq!(move_selection(None, 0, 1), None);
    assert_eq!(move_selection(None, 3, 1), Some(1));
    assert_eq!(move_selection(None, 3, -1), Some(2));
    assert_eq!(move_selection(Some(2), 3, 1), Some(0));
    assert_eq!(move_selection(Some(1), 3, -1), Some(0));
    assert_eq!(move_selection(Some(7), 3, 1), Some(0));
}

#[test]
fn tui_keys() {
    assert_eq!(key_command(Key::Char('q'), 0, None, false), Command::Quit);
    assert_eq!(key_command(Key::Esc, 2, None, false), Command::Quit);
    assert_eq!(key_command(Key::Char('2'), 0, None, false), Command::ShowTab(1));
    assert_eq!(key_command(Key::Tab, 2, None, false), Command::ShowTab(0));
    assert_eq!(key_command(Key::BackTab, 0, None, false), Command::ShowTab(2));
    assert_eq!(key_command(Key::Char('j'), 0, None, false), Command::Move(1));
    assert_eq!(key_command(Key::Up, 0, None, false), Command::Move(-1));
    assert_eq!(key_command(Key::Char('p'), 0, None, true), Command::Resume);
    assert_eq!(key_command(Key::Char('p'), 0, None, false), Command::Pause);
    assert_eq!(key_command(Key::Char('r'), 1, None, false), Command::SyncNow);
    assert_eq!(key_command(Key::Char('l'), 1, Some(3), false), Command::Resolve(3, Resolution::KeepLocal));
    assert_eq!(key_command(Key::Char('o'), 1, None, false), Command::Resolve(0, Resolution::KeepRemote));
    assert_eq!(key_command(Key::Char('b'), 1, Some(1), false), Command::Resolve(1, Resolution::KeepBoth));
    assert_eq!(key_command(Key::Char('b'), 0, Some(1), false), Command::Nothing);
    assert_eq!(key_command(Key::Other, 0, None, false), Command::Nothing);
}

#[test]
fn tui_conflicts_and_activity() {
    let s = Snapshot {
        paused: false,
        last_sync_millis: None,
        files: vec![
            FileStat { key: "x".to_string(), size: 1, mtime_millis: 1, status: FileStatus::Conflict },
            FileStat { key: "y".to_string(), size: 1, mtime_millis: 1, status: FileStatus::Synced },
            FileStat { key: "a".to_string(), size: 1, mtime_millis: 1, status: FileStatus::Conflict },
        ],
    };
    assert_eq!(refresh_conflicts(&s), vec!["x".to_string(), "a".to_string()]);
    let mut log: Vec<ActivityEntry> = (1..=ACTIVITY_KEEP as u64).map(entry).collect();
    append_activity(&mut log, vec![entry(501), entry(502)]);
    assert_eq!(log.len(), ACTIVITY_KEEP);
    assert_eq!(log[0].seq, 3);
    assert_eq!(log[ACTIVITY_KEEP - 1].seq, 502);
    let mut small = vec![entry(1)];
    append_activity(&mut small, vec![entry(2)]);
    assert_eq!(small.iter().map(|e| e.seq).collect::<Vec<_>>(), vec![1, 2]);
}

#[test]
fn help_and_labels() {
    assert_eq!(
        help_line(false, 0, &None),
        " [1/2/3] tabs  \u{2191}\u{2193} move  [r] sync-now  [p] pause  [q] quit"
    );
    assert_eq!(
        help_line(true, 1, &Some("boom".to_string())),
        " [1/2/3] tabs  \u{2191}\u{2193} move  [r] sync-now  [p] resume  [q] quit  [l] keep-local  [o] keep-remote  [b] keep-both   \u{26a0} boom"
    );
    assert_eq!(ago_text(10_000, 5_000), "5s ago");
    assert_eq!(ago_text(200_000, 0), "3m ago");
    assert_eq!(ago_text(7_200_000, 0), "2h ago");
    assert_eq!(ago_text(0, 9_000), "0s ago");
    let mut st = Status::default();
    assert_eq!(sync_state(&st), SyncState::Syncing);
    st.last_sync_millis = Some(1_000);
    assert_eq!(sync_state(&st), SyncState::Synced(1_000));
    assert_eq!(sync_label(sync_state(&st), 61_000), "Synced \u{b7} 1m ago");
    st.paused = true;
    assert_eq!(sync_label(sync_state(&st), 0), "Paused");
    assert_eq!(breadcrumb("bucket", ""), "bucket");
    assert_eq!(breadcrumb("bucket", "docs/sub/"), "bucket / docs/sub");
    assert_eq!(mirror_name("/home/u/Drive"), "Drive");
    assert_eq!(mirror_name("/home/u/Drive/"), "Mirror");
    assert_eq!(mirror_name("Drive"), "Drive");
    assert_eq!(items_caption(12), "12 items");
}

#[test]
fn defaults_and_tilde() {
    assert_eq!(default_remote_poll(), 45);
    assert_eq!(default_local_rescan(), 300);
    assert!(default_lazy());
    assert_eq!(expand_tilde_with("~/drive", Some("/home/u".to_string())), "/home/u/drive");
    assert_eq!(expand_tilde_with("~", Some("/home/u".to_string())), "/home/u");
    assert_eq!(expand_tilde_with("~/x", None), "~/x");
    assert_eq!(expand_tilde_with("/abs", Some("/home/u".to_string())), "/abs");
    assert_eq!(expand_tilde_with("~user/x", Some("/home/u".to_string())), "~user/x");
    let mut c = Config {
        endpoint: None,
        region: "us-east-1".to_string(),
        bucket: "b".to_string(),
        prefix: "drive".to_string(),
        local_root: "~/drive".to_string(),
        remote_poll_secs: 30,
        local_rescan_secs: 60,
        lazy: false,
    };
    c.expand_with(Some("/home/u".to_string()));
    assert_eq!(c.prefix, "drive/");
    assert_eq!(c.local_root, "/home/u/drive");
    assert_eq!(c.bucket, "b");
}

#[test]
fn error_messages() {
    assert_eq!(Error::Config("bad".to_string()).message(), "config error: bad");
    assert_eq!(Error::Paused.message(), "sync is paused");
    assert_eq!(Error::other("free").message(), "free");
    assert_eq!(Error::NonUtf8Path.message(), "invalid path: not valid UTF-8");
}

#[test]
fn text_helpers() {
    assert_eq!(decimal_string(0), "0");
    assert_eq!(decimal_string(1234567890), "1234567890");
    assert!(blank(" \t\n"));
    assert!(!blank(" x "));
    assert!(key_less("a", "b"));
    assert!(key_less("ab", "b"));
    assert!(key_less("Z", "a"));
    assert!(!key_less("b", "b"));
}

#[test]
fn date_labels() {
    let day: i64 = 86_400_000;
    let d = || Some("1 Jan".to_string());
    assert_eq!(date_label(0, 0, None), "?");
    assert_eq!(date_label(5 * day, 0, d()), "1 Jan");
    assert_eq!(date_label(day, 0, d()), "1 Jan");
    assert_eq!(date_label(day - 1, 0, d()), "Today");
    assert_eq!(date_label(0, day - 1, d()), "Today");
    assert_eq!(date_label(0, day, d()), "Yesterday");
    assert_eq!(date_label(0, 3 * day + 5, d()), "3 days ago");
}

#[test]
fn short_date_of_old_and_far_instants() {
    assert_eq!(short_date(0), "1 Jan");
    assert_eq!(short_date(86_400_000 * 40), "10 Feb");
    assert_eq!(short_date(u64::MAX), "31 Dec");
}

#[test]
fn ms_ago_of_the_epoch_is_hours() {
    assert!(ms_ago(0).ends_with("h ago"));
}

#[test]
fn file_row_decisions() {
    assert_eq!(double_click_action(FileStatus::RemoteOnly), RowAction::Materialize);
    assert_eq!(double_click_action(FileStatus::Conflict), RowAction::ToggleConflict);
    assert_eq!(double_click_action(FileStatus::Synced), RowAction::OpenFile);
    assert_eq!(double_click_action(FileStatus::NewLocal), RowAction::OpenFile);
    assert_eq!(row_size_label(FileStatus::RemoteOnly), Some("remote".to_string()));
    assert_eq!(row_size_label(FileStatus::Synced), None);
    assert_eq!(row_date(FileStatus::RemoteOnly, 0), "");
    assert_eq!(row_date(FileStatus::Synced, 0), "1 Jan");
    assert!(shows_resolver(FileStatus::Conflict, true));
    assert!(!shows_resolver(FileStatus::Conflict, false));
    assert!(!shows_resolver(FileStatus::Synced, true));
}
