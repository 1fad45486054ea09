use wunderdrive::browser::{
    up_path, visible_items, Browser, ClipboardOp, Item, MenuEntry, MenuTarget, NavEffect, Screen, SearchHit,
    SelectionMode, SortBy, SortDir, ViewMode,
};
use wunderdrive::engine::{FileStat, FileStatus, Snapshot};
use wunderdrive::listing::{
    conflict_count, count_with_status, parent_folder, sort_files, split_dirs, strip_marks, synced_count,
};

fn fs(key: &str, size: u64, mtime: u64, status: FileStatus) -> FileStat {
    FileStat { key: key.to_string(), size, mtime_millis: mtime, status }
}

fn snap() -> Snapshot {
    Snapshot {
        paused: false,
        last_sync_millis: None,
        files: vec![
            fs("b.txt", 3, 30, FileStatus::Synced),
            fs("docs/x.pdf", 5, 10, FileStatus::Synced),
            fs("a.txt", 1, 20, FileStatus::Conflict),
            fs("docs/sub/y.md", 2, 5, FileStatus::NewLocal),
            fs("cloud.bin", 9, 1, FileStatus::RemoteOnly),
            fs("arch/z", 1, 1, FileStatus::Synced),
        ],
    }
}

fn sel(b: &Browser) -> Vec<&str> {
    b.selection.iter().map(|s| s.as_str()).collect()
}

#[test]
fn listing_of_root_and_subfolder() {
    let s = snap();
    let (folders, files) = split_dirs(&s, "");
    assert_eq!(folders, vec!["arch/".to_string(), "docs/".to_string()]);
    let keys: Vec<&str> = files.iter().map(|f| f.key.as_str()).collect();
    assert_eq!(keys, vec!["b.txt", "a.txt", "cloud.bin"]);
    let (f2, fl2) = split_dirs(&s, "docs/");
    assert_eq!(f2, vec!["sub/".to_string()]);
    assert_eq!(fl2.len(), 1);
    assert_eq!(fl2[0].key, "docs/x.pdf");
    let items = visible_items(&s, "docs/");
    assert_eq!(items, vec![Item::Folder("sub/".to_string()), Item::File("docs/x.pdf".to_string())]);
}

#[test]
fn display_helpers() {
    assert_eq!(conflict_count(&snap()), 1);
    assert_eq!(parent_folder("docs/sub/y.md"), "docs/sub/");
    assert_eq!(parent_folder("a.txt"), "");
    assert_eq!(strip_marks("a <mark>b</mark> c <mark>d</mark>"), "a b c d");
    assert_eq!(up_path("docs/sub/"), "docs/");
    assert_eq!(up_path("docs/"), "");
    assert_eq!(up_path(""), "");
}

#[test]
fn sorting_is_stable_and_directional() {
    let mut v = vec![fs("c", 2, 1, FileStatus::Synced), fs("a", 1, 3, FileStatus::Synced), fs("b", 2, 2, FileStatus::Synced)];
    sort_files(&mut v, SortBy::Name, SortDir::Asc);
    assert_eq!(v.iter().map(|f| f.key.as_str()).collect::<Vec<_>>(), vec!["a", "b", "c"]);
    sort_files(&mut v, SortBy::Size, SortDir::Asc);
    assert_eq!(v.iter().map(|f| f.key.as_str()).collect::<Vec<_>>(), vec!["a", "b", "c"]);
    let mut w = vec![fs("c", 2, 1, FileStatus::Synced), fs("a", 1, 3, FileStatus::Synced), fs("b", 2, 2, FileStatus::Synced)];
    sort_files(&mut w, SortBy::Size, SortDir::Desc);
    // equal sizes keep their order: c before b
    assert_eq!(w.iter().map(|f| f.key.as_str()).collect::<Vec<_>>(), vec!["c", "b", "a"]);
    sort_files(&mut w, SortBy::Modified, SortDir::Desc);
    assert_eq!(w.iter().map(|f| f.key.as_str()).collect::<Vec<_>>(), vec!["a", "b", "c"]);
}

#[test]
fn navigation_history() {
    let mut b = Browser::new();
    b.open("docs/");
    assert_eq!(b.path, "docs/");
    b.open("sub/");
    assert_eq!(b.path, "docs/sub/");
    b.open("file.txt");
    assert_eq!(b.path, "docs/sub/");
    b.navigate_back();
    assert_eq!(b.path, "docs/");
    b.navigate_forward();
    assert_eq!(b.path, "docs/sub/");
    b.navigate_up();
    assert_eq!(b.path, "docs/");
    assert_eq!(b.nav_history, vec!["".to_string(), "docs/".to_string(), "docs/sub/".to_string()]);
    assert!(b.nav_future.is_empty());
    b.backspace();
    assert_eq!(b.path, "");
    b.navigate_back();
    assert_eq!(b.path, "docs/sub/");
}

#[test]
fn escape_unwinds_one_thing_at_a_time() {
    let mut b = Browser::new();
    let s = snap();
    b.select_item(&s, "a.txt".to_string(), SelectionMode::Single);
    b.right_clicked_background();
    assert!(b.set_search_query("hello".to_string()));
    assert_eq!(b.screen, Screen::Search);
    b.escape();
    assert_eq!(b.context_menu, None);
    assert_eq!(b.search_query, "hello");
    b.escape();
    assert_eq!(b.search_query, "");
    b.escape();
    assert_eq!(b.screen, Screen::Files);
    assert_eq!(sel(&b), vec!["a.txt"]);
    b.escape();
    assert!(b.selection.is_empty());
}

#[test]
fn blank_query_does_not_search() {
    let mut b = Browser::new();
    assert!(!b.set_search_query("   ".to_string()));
    assert_eq!(b.screen, Screen::Files);
    b.set_search_query("q".to_string());
    b.search_results("other", vec![SearchHit { key: "k".to_string(), snippet: None }]);
    assert!(b.search_hits.is_empty());
    b.search_results("q", vec![SearchHit { key: "k".to_string(), snippet: None }]);
    assert_eq!(b.search_hits.len(), 1);
}

#[test]
fn sorting_and_view_toggles() {
    let mut b = Browser::new();
    b.sort_by_column(SortBy::Name);
    assert_eq!(b.sort_dir, SortDir::Desc);
    b.sort_by_column(SortBy::Size);
    assert_eq!((b.sort_by, b.sort_dir), (SortBy::Size, SortDir::Asc));
    b.toggle_view_mode();
    assert_eq!(b.view_mode, ViewMode::Grid);
    b.toggle_view_mode();
    assert_eq!(b.view_mode, ViewMode::List);
    b.toggle_conflict("k".to_string());
    assert_eq!(b.expanded_conflict.as_deref(), Some("k"));
    b.toggle_conflict("k".to_string());
    assert_eq!(b.expanded_conflict, None);
    assert_eq!(b.navigate(Screen::Search), NavEffect::FocusSearch);
    assert_eq!(b.navigate(Screen::Activity), NavEffect::FetchActivity);
    assert_eq!(b.navigate(Screen::Conflicts), NavEffect::Nothing);
    b.action_result(Some("boom".to_string()));
    assert_eq!(b.last_error.as_deref(), Some("boom"));
}

#[test]
fn selection_modes() {
    let s = snap();
    let mut b = Browser::new();
    // root listing: arch/, docs/, b.txt, a.txt, cloud.bin
    b.select_item(&s, "b.txt".to_string(), SelectionMode::Single);
    b.select_item(&s, "cloud.bin".to_string(), SelectionMode::Range);
    assert_eq!(sel(&b), vec!["a.txt", "b.txt", "cloud.bin"]);
    assert_eq!(b.selection_anchor.as_deref(), Some("b.txt"));
    b.select_item(&s, "a.txt".to_string(), SelectionMode::ToggleAdd);
    assert_eq!(sel(&b), vec!["b.txt", "cloud.bin"]);
    b.select_item(&s, "a.txt".to_string(), SelectionMode::ToggleAdd);
    assert_eq!(sel(&b), vec!["a.txt", "b.txt", "cloud.bin"]);
    // a range that takes in folders keeps only files
    b.select_item(&s, "arch/".to_string(), SelectionMode::Single);
    b.select_item(&s, "b.txt".to_string(), SelectionMode::Range);
    assert_eq!(sel(&b), vec!["b.txt"]);
    b.file_pressed(&s, "cloud.bin".to_string(), false, true);
    assert_eq!(sel(&b), vec!["b.txt", "cloud.bin"]);
    b.file_pressed(&s, "a.txt".to_string(), false, false);
    assert_eq!(sel(&b), vec!["a.txt"]);
    b.select_all(&s);
    assert_eq!(sel(&b), vec!["a.txt", "b.txt", "cloud.bin"]);
    assert_eq!(b.selection_anchor.as_deref(), Some("b.txt"));
    b.clear_selection();
    assert!(b.selection.is_empty());
}

#[test]
fn cursor_moves_and_wraps() {
    let s = snap();
    let mut b = Browser::new();
    b.move_cursor(&s, 1);
    assert_eq!(b.cursor, Some(0));
    assert_eq!(b.selection_anchor.as_deref(), Some("arch/"));
    assert!(b.selection.is_empty());
    b.move_cursor(&s, -1);
    assert_eq!(b.cursor, Some(4));
    assert_eq!(sel(&b), vec!["cloud.bin"]);
    b.move_cursor(&s, 1);
    assert_eq!(b.cursor, Some(0));
    let mut c = Browser::new();
    c.move_cursor(&s, -1);
    assert_eq!(c.cursor, Some(4));
    assert_eq!(c.activate_cursor(&s), Some(Item::File("cloud.bin".to_string())));
    c.move_cursor(&s, 2);
    assert_eq!(c.activate_cursor(&s), Some(Item::Folder("docs/".to_string())));
    c.set_search_query("q".to_string());
    c.move_cursor(&s, 1);
    assert_eq!(c.cursor, Some(1));
    let empty = Snapshot::default();
    let mut d = Browser::new();
    d.move_cursor(&empty, 1);
    assert_eq!(d.cursor, None);
    assert_eq!(d.activate_cursor(&empty), None);
}

#[test]
fn context_menus() {
    let s = snap();
    let mut b = Browser::new();
    assert_eq!(
        b.menu_entries(&MenuTarget::FileListBackground, &s),
        vec![MenuEntry::Paste(false), MenuEntry::SelectAll]
    );
    b.right_clicked_item("cloud.bin".to_string());
    assert_eq!(sel(&b), vec!["cloud.bin"]);
    assert_eq!(b.context_menu, Some(MenuTarget::Item("cloud.bin".to_string())));
    assert_eq!(
        b.menu_entries(&MenuTarget::Item("cloud.bin".to_string()), &s),
        vec![
            MenuEntry::OpenFile,
            MenuEntry::Download,
            MenuEntry::Copy,
            MenuEntry::Cut,
            MenuEntry::CopyPath,
            MenuEntry::Rename,
            MenuEntry::Delete
        ]
    );
    assert_eq!(
        b.menu_entries(&MenuTarget::Item("docs/".to_string()), &s)[0],
        MenuEntry::OpenFolder
    );
    b.select_item(&s, "a.txt".to_string(), SelectionMode::ToggleAdd);
    assert_eq!(
        b.menu_entries(&MenuTarget::Item("a.txt".to_string()), &s),
        vec![MenuEntry::Copy, MenuEntry::Cut, MenuEntry::CopyPath, MenuEntry::ResolveConflict, MenuEntry::Rename, MenuEntry::Delete]
    );
    b.open_context_menu(MenuTarget::Item("a.txt".to_string()));
    assert_eq!(sel(&b), vec!["a.txt", "cloud.bin"]);
    b.close_context_menu();
    assert_eq!(b.context_menu, None);
}

#[test]
fn clipboard_and_drag_notices() {
    let s = snap();
    let mut b = Browser::new();
    assert_eq!(b.clipboard_paste(), None);
    b.select_all(&s);
    b.clipboard_put(ClipboardOp::Cut);
    assert_eq!(b.clipboard_paste(), Some("Paste 3 item(s) (move) \u{2014} awaiting engine support".to_string()));
    b.clipboard_put(ClipboardOp::Copy);
    assert_eq!(b.clipboard_paste(), Some("Paste 3 item(s) (copy) \u{2014} awaiting engine support".to_string()));
    assert_eq!(b.drag_dropped_on_folder("docs/"), None);
    b.begin_drag();
    assert_eq!(b.drag.as_ref().map(|d| d.len()), Some(3));
    assert_eq!(
        b.drag_dropped_on_folder("docs/"),
        Some("Move 3 item(s) to docs/ \u{2014} awaiting engine support".to_string())
    );
    assert_eq!(b.drag, None);
    b.drag_started(vec!["x".to_string()]);
    assert_eq!(b.folder_drop_target("arch/"), Some("Move 1 item(s) to arch/ \u{2014} awaiting engine support".to_string()));
    b.drag_started(vec!["x".to_string()]);
    b.end_drag();
    assert_eq!(b.folder_drop_target("arch/"), None);
    b.clear_selection();
    b.begin_drag();
    assert_eq!(b.drag, None);
}

#[test]
fn status_counts() {
    let s = snap();
    assert_eq!(synced_count(&s), 3);
    assert_eq!(count_with_status(&s, FileStatus::RemoteOnly), 1);
    assert_eq!(count_with_status(&s, FileStatus::DeletedPending), 0);
}

#[test]
fn hits_survive_other_actions() {
    let mut b = Browser::new();
    b.set_search_query("q".to_string());
    let hits = vec![
        SearchHit { key: "b".to_string(), snippet: Some("x".to_string()) },
        SearchHit { key: "a".to_string(), snippet: None },
    ];
    b.search_results("q", hits.clone());
    b.toggle_view_mode();
    b.sort_by_column(SortBy::Size);
    b.search_results("stale", vec![]);
    assert_eq!(b.search_hits, hits);
}

#[test]
fn back_and_forward_clear_the_selection() {
    let s = snap();
    let mut b = Browser::new();
    b.select_item(&s, "a.txt".to_string(), SelectionMode::Single);
    b.open("docs/");
    b.select_item(&s, "docs/x.pdf".to_string(), SelectionMode::Single);
    b.navigate_back();
    assert_eq!(b.path, "");
    assert!(b.selection.is_empty() && b.selection_anchor.is_none() && b.cursor.is_none());
    b.select_item(&s, "a.txt".to_string(), SelectionMode::Single);
    b.navigate_forward();
    assert_eq!(b.path, "docs/");
    assert!(b.selection.is_empty() && b.selection_anchor.is_none() && b.cursor.is_none());
}
