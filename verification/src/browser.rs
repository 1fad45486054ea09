//! The desktop client's browsing state: the current folder and its history,
//! the search query, the selection, the keyboard cursor, sorting, the view
//! mode, the open context menu and the clipboard.
//!
//! Each user message is a transition of this state; its model is
//! [`BrowserView`] and each transition's effect is a spec function on it.

use vstd::prelude::*;
use crate::engine::{FileStat, FileStatus, Snapshot};
use crate::keyed::{contains_str, copy_strings, insert_sorted, lemma_push_to_set, lemma_sorted_same_set, remove_sorted, strictly_sorted, views};
use crate::listing::{file_in, folders_in, split_dirs};
use crate::text::{blank, chars_of, decimal, is_blank, last_index_of, lemma_last_index_of, push_decimal, push_str, rfind_char, str_eq};

verus! {

/// The navigable screens in the sidebar.
#[derive(Debug, Clone, Copy, PartialEq, Eq, Structural)]
pub enum Screen {
    Overview,
    Files,
    Search,
    Conflicts,
    Activity,
    Settings,
}

/// What a context menu was opened on.
#[derive(Debug, Clone, PartialEq, Eq)]
pub enum MenuTarget {
    FileListBackground,
    Item(String),
}

#[derive(Debug, Clone, Copy, PartialEq, Eq, Structural)]
pub enum ViewMode {
    List,
    Grid,
}

#[derive(Debug, Clone, Copy, PartialEq, Eq, Structural)]
pub enum SortBy {
    Name,
    Size,
    Modified,
}

#[derive(Debug, Clone, Copy, PartialEq, Eq, Structural)]
pub enum SortDir {
    Asc,
    Desc,
}

/// How a click extends the selection.
#[derive(Debug, Clone, Copy, PartialEq, Eq, Structural)]
pub enum SelectionMode {
    Single,
    ToggleAdd,
    Range,
}

#[derive(Debug, Clone, Copy, PartialEq, Eq, Structural)]
pub enum ClipboardOp {
    Copy,
    Cut,
}

/// One entry of the current folder's listing.
#[derive(Debug, Clone, PartialEq, Eq)]
pub enum Item {
    /// A folder, by its name with a trailing `/`.
    Folder(String),
    /// A file, by its key.
    File(String),
}

/// A search hit: the key and an optional snippet with `<mark>` tags.
#[derive(Debug, Clone, PartialEq, Eq)]
pub struct SearchHit {
    pub key: String,
    pub snippet: Option<String>,
}

/// What a screen change asks the client to do.
#[derive(Debug, Clone, Copy, PartialEq, Eq, Structural)]
pub enum NavEffect {
    /// Put the keyboard focus in the search box.
    FocusSearch,
    /// Fetch the activity log.
    FetchActivity,
    Nothing,
}

/// The model of an [`Item`].
pub enum ItemView {
    Folder(Seq<char>),
    File(Seq<char>),
}

/// The model of the browsing state.
pub struct BrowserView {
    pub path: Seq<char>,
    pub history: Seq<Seq<char>>,
    pub future: Seq<Seq<char>>,
    pub query: Seq<char>,
    /// The search hits shown, each by its key and snippet.
    pub hits: Seq<(Seq<char>, Option<Seq<char>>)>,
    pub last_error: Option<Seq<char>>,
    pub expanded: Option<Seq<char>>,
    pub selection: Set<Seq<char>>,
    pub anchor: Option<Seq<char>>,
    pub view_mode: ViewMode,
    pub sort_by: SortBy,
    pub sort_dir: SortDir,
    pub cursor: Option<usize>,
    pub screen: Screen,
    /// `None`: no menu; `Some(None)`: on the list background; `Some(Some(k))`:
    /// on item `k`.
    pub menu: Option<Option<Seq<char>>>,
    pub clipboard: Option<(ClipboardOp, Seq<Seq<char>>)>,
    /// The keys being dragged, if a drag is under way.
    pub drag: Option<Seq<Seq<char>>>,
}

/// The client's browsing state.
pub struct Browser {
    /// The current folder, as a key prefix (empty at the root, else ending
    /// in `/`).
    pub path: String,
    pub nav_history: Vec<String>,
    pub nav_future: Vec<String>,
    pub search_query: String,
    pub search_hits: Vec<SearchHit>,
    pub last_error: Option<String>,
    pub expanded_conflict: Option<String>,
    /// Selected keys, in increasing `str` order.
    pub selection: Vec<String>,
    pub selection_anchor: Option<String>,
    pub view_mode: ViewMode,
    pub sort_by: SortBy,
    pub sort_dir: SortDir,
    pub cursor: Option<usize>,
    pub screen: Screen,
    pub context_menu: Option<MenuTarget>,
    /// The clipboard operation and its keys, in increasing `str` order.
    pub clipboard: Option<(ClipboardOp, Vec<String>)>,
    /// The keys being dragged, if a drag is under way.
    pub drag: Option<Vec<String>>,
}

pub open spec fn opt_str(o: Option<String>) -> Option<Seq<char>> {
    match o {
        Some(s) => Some(s@),
        None => None,
    }
}

/// A search hit by its key and snippet.
pub open spec fn hit_view(h: SearchHit) -> (Seq<char>, Option<Seq<char>>) {
    (h.key@, opt_str(h.snippet))
}

/// The hits of `v`, each by its key and snippet.
pub open spec fn hits_view(v: Seq<SearchHit>) -> Seq<(Seq<char>, Option<Seq<char>>)> {
    v.map_values(|h: SearchHit| hit_view(h))
}

pub open spec fn menu_view(m: Option<MenuTarget>) -> Option<Option<Seq<char>>> {
    match m {
        None => None,
        Some(MenuTarget::FileListBackground) => Some(None),
        Some(MenuTarget::Item(k)) => Some(Some(k@)),
    }
}

pub open spec fn item_view(i: Item) -> ItemView {
    match i {
        Item::Folder(n) => ItemView::Folder(n@),
        Item::File(k) => ItemView::File(k@),
    }
}

pub open spec fn item_name(i: ItemView) -> Seq<char> {
    match i {
        ItemView::Folder(n) => n,
        ItemView::File(k) => k,
    }
}

impl View for Browser {
    type V = BrowserView;

    open spec fn view(&self) -> BrowserView {
        BrowserView {
            path: self.path@,
            history: views(self.nav_history@),
            future: views(self.nav_future@),
            query: self.search_query@,
            hits: hits_view(self.search_hits@),
            last_error: opt_str(self.last_error),
            expanded: opt_str(self.expanded_conflict),
            selection: views(self.selection@).to_set(),
            anchor: opt_str(self.selection_anchor),
            view_mode: self.view_mode,
            sort_by: self.sort_by,
            sort_dir: self.sort_dir,
            cursor: self.cursor,
            screen: self.screen,
            menu: menu_view(self.context_menu),
            clipboard: match self.clipboard {
                Some((op, keys)) => Some((op, views(keys@))),
                None => None,
            },
            drag: match self.drag {
                Some(keys) => Some(views(keys@)),
                None => None,
            },
        }
    }
}

/// `p` without its trailing `/`s.
pub open spec fn trim_slashes(p: Seq<char>) -> Seq<char>
    decreases p.len(),
{
    if p.len() > 0 && p.last() == '/' {
        trim_slashes(p.drop_last())
    } else {
        p
    }
}

/// The folder above `p`: `p` cut after the last `/` that precedes its
/// trailing `/`s, or the root.
pub open spec fn spec_up(p: Seq<char>) -> Seq<char> {
    match last_index_of(trim_slashes(p), '/') {
        Some(i) => p.take(i + 1),
        None => Seq::empty(),
    }
}

/// The folder above `p`.
pub fn up_path(p: &str) -> (r: String)
    ensures
        r@ == spec_up(p@),
{
    let v = chars_of(p);
    let mut n = v.len();
    assert(v@.take(n as int) =~= v@);
    while n > 0 && v[n - 1] == '/'
        invariant
            n <= v@.len(),
            v@ == p@,
            trim_slashes(v@.take(n as int)) == trim_slashes(p@),
        decreases n,
    {
        assert(v@.take(n as int).drop_last() =~= v@.take(n - 1));
        n -= 1;
    }
    let t = crate::text::sub_chars(v.as_slice(), 0, n);
    assert(t@ =~= v@.take(n as int));
    match rfind_char(t.as_slice(), '/') {
        Some(i) => {
            proof {
                lemma_last_index_of(t@, '/');
            }
            let out = crate::text::sub_chars(v.as_slice(), 0, i + 1);
            assert(out@ =~= p@.take(i + 1));
            crate::text::string_of(out.as_slice())
        },
        None => String::new(),
    }
}

/// A copy of `it`.
pub fn copy_item(it: &Item) -> (r: Item)
    ensures
        item_view(r) == item_view(*it),
{
    match it {
        Item::Folder(n) => Item::Folder(n.clone()),
        Item::File(k) => Item::File(k.clone()),
    }
}

/// The name a listed entry is found by: a folder's name, a file's key.
pub fn item_key(it: &Item) -> (r: String)
    ensures
        r@ == item_name(item_view(*it)),
{
    match it {
        Item::Folder(n) => n.clone(),
        Item::File(k) => k.clone(),
    }
}

/// The entries of folder `path` in `snapshot`: folders first, in increasing
/// order, then files in snapshot order.
pub fn visible_items(snapshot: &Snapshot, path: &str) -> (r: Vec<Item>)
    ensures
        r@.map_values(|i: Item| item_view(i)) == listing(snapshot.files@, path@),
{
    let (folders, files) = split_dirs(snapshot, path);
    let ghost fs = sorted_keys(folders_in(snapshot.files@, path@));
    proof {
        lemma_sorted_same_set(fs, views(folders@));
    }
    let mut v: Vec<Item> = Vec::new();
    let mut i: usize = 0;
    while i < folders.len()
        invariant
            i <= folders@.len(),
            v@.len() == i,
            forall|k: int| 0 <= k < i ==> item_view(#[trigger] v@[k]) == ItemView::Folder(folders@[k]@),
        decreases folders@.len() - i,
    {
        v.push(Item::Folder(folders[i].clone()));
        i += 1;
    }
    let nf = folders.len();
    let mut j: usize = 0;
    while j < files.len()
        invariant
            j <= files@.len(),
            nf == folders@.len(),
            v@.len() == nf + j,
            forall|k: int| 0 <= k < nf ==> item_view(#[trigger] v@[k]) == ItemView::Folder(folders@[k]@),
            forall|k: int| 0 <= k < j ==> item_view(#[trigger] v@[nf + k]) == ItemView::File(files@[k].key@),
        decreases files@.len() - j,
    {
        v.push(Item::File(files[j].key.clone()));
        j += 1;
    }
    proof {
        let lhs = v@.map_values(|i: Item| item_view(i));
        let rhs = listing(snapshot.files@, path@);
        let fpart = fs.map_values(|n: Seq<char>| ItemView::Folder(n));
        let lpart = files@.map_values(|f: FileStat| ItemView::File(f.key@));
        assert(fs == views(folders@));
        assert(rhs == fpart + lpart);
        assert forall|k: int| 0 <= k < lhs.len() implies lhs[k] == rhs[k] by {
            if k < nf {
                assert(fpart[k] == ItemView::Folder(folders@[k]@));
            } else {
                assert(v@[nf + (k - nf)] == v@[k]);
                assert(lpart[k - nf] == ItemView::File(files@[k - nf].key@));
            }
        }
        assert(lhs =~= rhs);
    }
    v
}

/// A position found within a prefix of `s` is the position in `s`.
pub proof fn lemma_index_of_name_prefix(s: Seq<ItemView>, k: Seq<char>, j: int)
    requires
        0 <= j <= s.len(),
    ensures
        index_of_name(s.take(j), k) is Some ==> index_of_name(s, k) == index_of_name(s.take(j), k),
        j == s.len() ==> index_of_name(s, k) == index_of_name(s.take(j), k),
    decreases s.len() - j,
{
    if j == s.len() {
        assert(s.take(j) =~= s);
    } else {
        assert(s.take(j + 1).drop_last() =~= s.take(j));
        lemma_index_of_name_prefix(s, k, j + 1);
    }
}

/// A found position lies within `s`, and names an entry called `k`.
pub proof fn lemma_index_of_name_bounds(s: Seq<ItemView>, k: Seq<char>)
    ensures
        index_of_name(s, k) matches Some(i) ==> 0 <= i < s.len() && item_name(s[i]) == k,
    decreases s.len(),
{
    if s.len() > 0 {
        lemma_index_of_name_bounds(s.drop_last(), k);
    }
}

/// The first position in `items` of an entry named `k`.
pub fn position_of(items: &Vec<Item>, k: &str) -> (r: Option<usize>)
    ensures
        match r {
            Some(i) => i < items@.len() && index_of_name(items@.map_values(|i: Item| item_view(i)), k@)
                == Some(i as int),
            None => index_of_name(items@.map_values(|i: Item| item_view(i)), k@) is None,
        },
{
    let ghost iv = items@.map_values(|i: Item| item_view(i));
    let mut i: usize = 0;
    assert(iv.take(0) =~= Seq::<ItemView>::empty());
    while i < items.len()
        invariant
            i <= items@.len(),
            iv == items@.map_values(|i: Item| item_view(i)),
            index_of_name(iv.take(i as int), k@) is None,
        decreases items@.len() - i,
    {
        let name = item_key(&items[i]);
        assert(iv.take(i + 1).drop_last() =~= iv.take(i as int));
        assert(iv.take(i + 1).last() == iv[i as int]);
        if str_eq(name.as_str(), k) {
            proof {
                lemma_index_of_name_prefix(iv, k@, i + 1);
            }
            return Some(i);
        }
        i += 1;
    }
    proof {
        lemma_index_of_name_prefix(iv, k@, i as int);
    }
    None
}

/// The keys of the files among `items[lo..=hi]`, in increasing order.
pub fn files_in_range(items: &Vec<Item>, lo: usize, hi: usize) -> (r: Vec<String>)
    requires
        lo <= hi < items@.len(),
    ensures
        strictly_sorted(views(r@)),
        views(r@).to_set() == files_between(items@.map_values(|i: Item| item_view(i)), lo as int, hi as int),
{
    let ghost iv = items@.map_values(|i: Item| item_view(i));
    let mut out: Vec<String> = Vec::new();
    let mut i: usize = lo;
    let len = items.len();
    assert(views(out@).to_set() =~= files_between(iv, lo as int, lo - 1));
    while i <= hi
        invariant
            lo <= i <= hi + 1,
            hi < len,
            len == items@.len(),
            iv == items@.map_values(|i: Item| item_view(i)),
            strictly_sorted(views(out@)),
            views(out@).to_set() == files_between(iv, lo as int, i - 1),
        decreases hi + 1 - i,
    {
        let ghost before = views(out@).to_set();
        match &items[i] {
            Item::File(k) => {
                insert_sorted(&mut out, k.clone());
                proof {
                    assert(iv[i as int] == ItemView::File(k@));
                    assert forall|x: Seq<char>| files_between(iv, lo as int, i as int).contains(x) <==> before.insert(k@).contains(x) by {
                        if files_between(iv, lo as int, i as int).contains(x) {
                            let m = choose|m: int| lo <= m <= i && 0 <= m < iv.len() && iv[m] == ItemView::File(x);
                            if m < i {
                                assert(files_between(iv, lo as int, i - 1).contains(x));
                            }
                        }
                        if before.contains(x) {
                            let m = choose|m: int| lo <= m <= i - 1 && 0 <= m < iv.len() && iv[m] == ItemView::File(x);
                            assert(files_between(iv, lo as int, i as int).contains(x));
                        }
                        if x == k@ {
                            assert(files_between(iv, lo as int, i as int).contains(x));
                        }
                    }
                    assert(views(out@).to_set() =~= files_between(iv, lo as int, i as int));
                }
            },
            Item::Folder(n) => {
                proof {
                    assert(iv[i as int] == ItemView::Folder(n@));
                    assert forall|x: Seq<char>| files_between(iv, lo as int, i as int).contains(x) <==> before.contains(x) by {
                        if files_between(iv, lo as int, i as int).contains(x) {
                            let m = choose|m: int| lo <= m <= i && 0 <= m < iv.len() && iv[m] == ItemView::File(x);
                            if m < i {
                                assert(files_between(iv, lo as int, i - 1).contains(x));
                            }
                        }
                        if before.contains(x) {
                            let m = choose|m: int| lo <= m <= i - 1 && 0 <= m < iv.len() && iv[m] == ItemView::File(x);
                            assert(files_between(iv, lo as int, i as int).contains(x));
                        }
                    }
                    assert(views(out@).to_set() =~= files_between(iv, lo as int, i as int));
                }
            },
        }
        i += 1;
    }
    out
}

/// An entry of the context menu.
#[derive(Debug, Clone, Copy, PartialEq, Eq, Structural)]
pub enum MenuEntry {
    /// Paste, enabled when the clipboard holds entries.
    Paste(bool),
    SelectAll,
    OpenFolder,
    OpenFile,
    /// Fetch a remote-only file.
    Download,
    Copy,
    Cut,
    CopyPath,
    ResolveConflict,
    /// Shown disabled.
    Rename,
    /// Shown disabled.
    Delete,
}

/// The menu on a listed entry: "Open" unless several entries are selected,
/// "Download" for a remote-only file, the clipboard entries, "Resolve
/// conflict" for a conflict, then the disabled "Rename" and "Delete".
pub open spec fn item_menu(is_folder: bool, multi: bool, remote: bool, conflict: bool) -> Seq<MenuEntry> {
    (if multi {
        Seq::<MenuEntry>::empty()
    } else if is_folder {
        seq![MenuEntry::OpenFolder]
    } else {
        seq![MenuEntry::OpenFile]
    }) + (if remote {
        seq![MenuEntry::Download]
    } else {
        Seq::<MenuEntry>::empty()
    }) + seq![MenuEntry::Copy, MenuEntry::Cut, MenuEntry::CopyPath] + (if conflict {
        seq![MenuEntry::ResolveConflict]
    } else {
        Seq::<MenuEntry>::empty()
    }) + seq![MenuEntry::Rename, MenuEntry::Delete]
}

/// Some row of `files` has key `key` and status `st`.
pub open spec fn has_status(files: Seq<FileStat>, key: Seq<char>, st: FileStatus) -> bool {
    exists|i: int| 0 <= i < files.len() && files[i].key@ == key && files[i].status == st
}

/// Whether some row of `snapshot` has key `key` and status `st`.
pub fn any_with_status(snapshot: &Snapshot, key: &str, st: FileStatus) -> (r: bool)
    ensures
        r == has_status(snapshot.files@, key@, st),
{
    let mut i: usize = 0;
    while i < snapshot.files.len()
        invariant
            i <= snapshot.files@.len(),
            forall|j: int| 0 <= j < i ==> !(snapshot.files@[j].key@ == key@ && snapshot.files@[j].status == st),
        decreases snapshot.files@.len() - i,
    {
        let f = &snapshot.files[i];
        if str_eq(f.key.as_str(), key) && f.status == st {
            return true;
        }
        i += 1;
    }
    false
}

fn push_entries(v: &mut Vec<MenuEntry>, e: MenuEntry)
    ensures
        final(v)@ == old(v)@.push(e),
{
    v.push(e);
}

/// The selection holds `k` alone.
pub open spec fn only(k: Seq<char>) -> Set<Seq<char>> {
    Set::empty().insert(k)
}

/// Whether `s` ends in `/`.
pub open spec fn is_folder_name(s: Seq<char>) -> bool {
    s.len() > 0 && s.last() == '/'
}

/// Entering folder `name` (a name ending in `/`) of the current folder.
pub open spec fn spec_open(b: BrowserView, name: Seq<char>) -> BrowserView {
    if is_folder_name(name) {
        BrowserView {
            history: b.history.push(b.path),
            future: Seq::empty(),
            path: b.path + name,
            cursor: None,
            selection: Set::empty(),
            anchor: None,
            menu: None,
            screen: Screen::Files,
            ..b
        }
    } else {
        b
    }
}

/// Going up one folder, remembering where we were.
pub open spec fn spec_navigate_up(b: BrowserView) -> BrowserView {
    if b.path.len() > 0 {
        BrowserView {
            history: b.history.push(b.path),
            future: Seq::empty(),
            path: spec_up(b.path),
            cursor: None,
            selection: Set::empty(),
            anchor: None,
            menu: None,
            ..b
        }
    } else {
        b
    }
}

/// Going back to the previous folder.
pub open spec fn spec_back(b: BrowserView) -> BrowserView {
    if b.history.len() > 0 {
        BrowserView {
            path: b.history.last(),
            history: b.history.drop_last(),
            future: b.future.push(b.path),
            cursor: None,
            selection: Set::empty(),
            anchor: None,
            menu: None,
            ..b
        }
    } else {
        b
    }
}

/// Going forward again after going back.
pub open spec fn spec_forward(b: BrowserView) -> BrowserView {
    if b.future.len() > 0 {
        BrowserView {
            path: b.future.last(),
            future: b.future.drop_last(),
            history: b.history.push(b.path),
            cursor: None,
            selection: Set::empty(),
            anchor: None,
            menu: None,
            ..b
        }
    } else {
        b
    }
}

/// Escape: close the menu, else clear the query, else leave the search
/// screen, else drop the cursor and the selection.
pub open spec fn spec_escape(b: BrowserView) -> BrowserView {
    if b.menu is Some {
        BrowserView { menu: None, ..b }
    } else if b.query.len() > 0 {
        BrowserView { query: Seq::empty(), hits: Seq::empty(), ..b }
    } else if b.screen == Screen::Search {
        BrowserView { screen: Screen::Files, ..b }
    } else {
        BrowserView { cursor: None, selection: Set::empty(), anchor: None, ..b }
    }
}

/// Backspace outside the search box: up one folder, without history.
pub open spec fn spec_backspace(b: BrowserView) -> BrowserView {
    if b.query.len() > 0 {
        b
    } else {
        BrowserView { path: spec_up(b.path), cursor: None, ..b }
    }
}

/// Clicking a column header: the same column flips the direction, another
/// column sorts ascending by it.
pub open spec fn spec_sort_by(b: BrowserView, by: SortBy) -> BrowserView {
    if b.sort_by == by {
        BrowserView {
            sort_dir: match b.sort_dir {
                SortDir::Asc => SortDir::Desc,
                SortDir::Desc => SortDir::Asc,
            },
            ..b
        }
    } else {
        BrowserView { sort_by: by, sort_dir: SortDir::Asc, ..b }
    }
}

pub open spec fn spec_toggle_view(b: BrowserView) -> BrowserView {
    BrowserView {
        view_mode: match b.view_mode {
            ViewMode::List => ViewMode::Grid,
            ViewMode::Grid => ViewMode::List,
        },
        ..b
    }
}

pub open spec fn spec_toggle_conflict(b: BrowserView, key: Seq<char>) -> BrowserView {
    BrowserView {
        expanded: if b.expanded == Some(key) {
            None
        } else {
            Some(key)
        },
        ..b
    }
}

/// The keys of `set` in increasing `str` order.
pub open spec fn sorted_keys(set: Set<Seq<char>>) -> Seq<Seq<char>> {
    choose|s: Seq<Seq<char>>| strictly_sorted(s) && s.to_set() == set
}

/// The entries of folder `prefix`: its folders in increasing order, then
/// its files in snapshot order.
pub open spec fn listing(files: Seq<FileStat>, prefix: Seq<char>) -> Seq<ItemView> {
    sorted_keys(folders_in(files, prefix)).map_values(|n: Seq<char>| ItemView::Folder(n))
        + files.filter(|f: FileStat| file_in(f, prefix)).map_values(
        |f: FileStat| ItemView::File(f.key@),
    )
}

/// Moving the keyboard cursor by `delta` over `items`, wrapping around;
/// from no cursor, down goes to the first entry and up to the last. The
/// entry under the cursor becomes the anchor, and the selection if it is a
/// file. Nothing moves while a search query is typed.
pub open spec fn spec_move_cursor(b: BrowserView, items: Seq<ItemView>, delta: int) -> BrowserView {
    if !is_blank(b.query) {
        b
    } else if items.len() == 0 {
        BrowserView { cursor: None, ..b }
    } else {
        let n = items.len() as int;
        let next: int = match b.cursor {
            None => if delta > 0 {
                0
            } else {
                n - 1
            },
            Some(c) => (c + delta) % n,
        };
        BrowserView {
            cursor: Some(next as usize),
            selection: match items[next] {
                ItemView::File(k) => only(k),
                ItemView::Folder(_) => Set::empty(),
            },
            anchor: Some(item_name(items[next])),
            ..b
        }
    }
}

/// The first position of an entry named `k`.
pub open spec fn index_of_name(items: Seq<ItemView>, k: Seq<char>) -> Option<int>
    decreases items.len(),
{
    if items.len() == 0 {
        None
    } else {
        match index_of_name(items.drop_last(), k) {
            Some(i) => Some(i),
            None => if item_name(items.last()) == k {
                Some(items.len() - 1)
            } else {
                None
            },
        }
    }
}

/// The keys of the files among `items[lo..=hi]`.
pub open spec fn files_between(items: Seq<ItemView>, lo: int, hi: int) -> Set<Seq<char>> {
    Set::new(|k: Seq<char>| exists|i: int| lo <= i <= hi && 0 <= i < items.len() && items[i] == ItemView::File(k))
}

/// A click on entry `key` with selection `mode`, over the listed `items`.
pub open spec fn spec_select(b: BrowserView, items: Seq<ItemView>, key: Seq<char>, mode: SelectionMode) -> BrowserView {
    let b2 = match mode {
        SelectionMode::Single => BrowserView { selection: only(key), anchor: Some(key), ..b },
        SelectionMode::ToggleAdd => BrowserView {
            selection: if b.selection.contains(key) {
                b.selection.remove(key)
            } else {
                b.selection.insert(key)
            },
            anchor: Some(key),
            ..b
        },
        SelectionMode::Range => {
            let a_key = match b.anchor {
                Some(a) => a,
                None => key,
            };
            match (index_of_name(items, a_key), index_of_name(items, key)) {
                (Some(a), Some(t)) => BrowserView {
                    selection: if a <= t {
                        files_between(items, a, t)
                    } else {
                        files_between(items, t, a)
                    },
                    anchor: Some(a_key),
                    ..b
                },
                _ => BrowserView { anchor: Some(a_key), ..b },
            }
        },
    };
    BrowserView { menu: None, ..b2 }
}

/// The selection mode of a click: shift extends a range, control (or
/// command) toggles one entry, a plain click selects one entry.
pub open spec fn click_mode(shift: bool, ctrl: bool) -> SelectionMode {
    if shift {
        SelectionMode::Range
    } else if ctrl {
        SelectionMode::ToggleAdd
    } else {
        SelectionMode::Single
    }
}

/// A right click on entry `key`: an entry outside the selection becomes the
/// selection; the menu opens on it.
pub open spec fn spec_menu_on_item(b: BrowserView, key: Seq<char>) -> BrowserView {
    if b.selection.contains(key) {
        BrowserView { menu: Some(Some(key)), ..b }
    } else {
        BrowserView { selection: only(key), anchor: Some(key), menu: Some(Some(key)), ..b }
    }
}

/// The notice shown when pasting `n` entries, copied or cut.
pub open spec fn paste_notice(n: nat, op: ClipboardOp) -> Seq<char> {
    "Paste "@ + decimal(n) + " item(s) ("@ + (match op {
        ClipboardOp::Copy => "copy"@,
        ClipboardOp::Cut => "move"@,
    }) + ") \u{2014} awaiting engine support"@
}

/// The notice shown when `n` dragged entries are dropped on `folder`.
pub open spec fn move_notice(n: nat, folder: Seq<char>) -> Seq<char> {
    "Move "@ + decimal(n) + " item(s) to "@ + folder + " \u{2014} awaiting engine support"@
}

impl Browser {
    /// The selection and the clipboard keys are kept in increasing order.
    pub open spec fn wf(&self) -> bool {
        &&& strictly_sorted(views(self.selection@))
        &&& self.clipboard matches Some((_, keys)) ==> strictly_sorted(views(keys@))
    }

    /// The state right after connecting: at the root of the files screen,
    /// list view sorted by name ascending, nothing selected.
    pub fn new() -> (b: Browser)
        ensures
            b.wf(),
            b@.path.len() == 0,
            b@.history.len() == 0,
            b@.future.len() == 0,
            b@.query.len() == 0,
            b@.hits.len() == 0,
            b@.last_error is None,
            b@.expanded is None,
            b@.selection == Set::<Seq<char>>::empty(),
            b@.anchor is None,
            b@.view_mode == ViewMode::List,
            b@.sort_by == SortBy::Name,
            b@.sort_dir == SortDir::Asc,
            b@.cursor is None,
            b@.screen == Screen::Files,
            b@.menu is None,
            b@.clipboard is None,
            b@.drag is None,
    {
        let b = Browser {
            path: String::new(),
            nav_history: Vec::new(),
            nav_future: Vec::new(),
            search_query: String::new(),
            search_hits: Vec::new(),
            last_error: None,
            expanded_conflict: None,
            selection: Vec::new(),
            selection_anchor: None,
            view_mode: ViewMode::List,
            sort_by: SortBy::Name,
            sort_dir: SortDir::Asc,
            cursor: None,
            screen: Screen::Files,
            context_menu: None,
            clipboard: None,
            drag: None,
        };
        assert(views(b.selection@).to_set() =~= Set::<Seq<char>>::empty());
        b
    }

    fn reset_selection(&mut self)
        ensures
            final(self)@ == (BrowserView {
                cursor: None,
                selection: Set::empty(),
                anchor: None,
                menu: None,
                ..old(self)@
            }),
            final(self).wf() == (old(self).clipboard matches Some((_, keys)) ==> strictly_sorted(
                views(keys@),
            )),
    {
        self.cursor = None;
        self.selection = Vec::new();
        self.selection_anchor = None;
        self.context_menu = None;
        assert(views(self.selection@).to_set() =~= Set::<Seq<char>>::empty());
    }

    /// Enter folder `name` of the current folder (a name ending in `/`;
    /// anything else is ignored).
    pub fn open(&mut self, name: &str)
        requires
            old(self).wf(),
        ensures
            final(self).wf(),
            final(self)@ == spec_open(old(self)@, name@),
    {
        let nv = chars_of(name);
        if nv.len() > 0 && nv[nv.len() - 1] == '/' {
            let cur = self.path.clone();
            self.nav_history.push(cur);
            self.nav_future = Vec::new();
            push_str(&mut self.path, name);
            self.screen = Screen::Files;
            self.reset_selection();
            proof {
                assert(views(self.nav_history@) =~= views(old(self).nav_history@).push(old(self).path@));
                assert(views(self.nav_future@) =~= Seq::<Seq<char>>::empty());
            }
        }
    }

    /// Go up one folder.
    pub fn navigate_up(&mut self)
        requires
            old(self).wf(),
        ensures
            final(self).wf(),
            final(self)@ == spec_navigate_up(old(self)@),
    {
        if self.path.as_str().unicode_len() > 0 {
            let cur = self.path.clone();
            self.path = up_path(cur.as_str());
            self.nav_history.push(cur);
            self.nav_future = Vec::new();
            self.reset_selection();
            proof {
                assert(views(self.nav_history@) =~= views(old(self).nav_history@).push(old(self).path@));
                assert(views(self.nav_future@) =~= Seq::<Seq<char>>::empty());
            }
        }
    }

    /// Go back to the previous folder.
    pub fn navigate_back(&mut self)
        requires
            old(self).wf(),
        ensures
            final(self).wf(),
            final(self)@ == spec_back(old(self)@),
    {
        if let Some(prev) = self.nav_history.pop() {
            let mut cur = prev;
            std::mem::swap(&mut cur, &mut self.path);
            self.nav_future.push(cur);
            self.reset_selection();
            proof {
                assert(views(self.nav_history@) =~= views(old(self).nav_history@).drop_last());
                assert(views(self.nav_future@) =~= views(old(self).nav_future@).push(old(self).path@));
            }
        }
    }

    /// Go forward again.
    pub fn navigate_forward(&mut self)
        requires
            old(self).wf(),
        ensures
            final(self).wf(),
            final(self)@ == spec_forward(old(self)@),
    {
        if let Some(next) = self.nav_future.pop() {
            let mut cur = next;
            std::mem::swap(&mut cur, &mut self.path);
            self.nav_history.push(cur);
            self.reset_selection();
            proof {
                assert(views(self.nav_future@) =~= views(old(self).nav_future@).drop_last());
                assert(views(self.nav_history@) =~= views(old(self).nav_history@).push(old(self).path@));
            }
        }
    }

    /// Escape key.
    pub fn escape(&mut self)
        requires
            old(self).wf(),
        ensures
            final(self).wf(),
            final(self)@ == spec_escape(old(self)@),
    {
        if self.context_menu.is_some() {
            self.context_menu = None;
        } else if self.search_query.as_str().unicode_len() > 0 {
            self.search_query = String::new();
            self.search_hits = Vec::new();
            assert(hits_view(self.search_hits@) =~= Seq::<(Seq<char>, Option<Seq<char>>)>::empty());
        } else if self.screen == Screen::Search {
            self.screen = Screen::Files;
        } else {
            self.cursor = None;
            self.selection = Vec::new();
            self.selection_anchor = None;
            assert(views(self.selection@).to_set() =~= Set::<Seq<char>>::empty());
        }
    }

    /// Backspace key (outside the search box): up one folder.
    pub fn backspace(&mut self)
        requires
            old(self).wf(),
        ensures
            final(self).wf(),
            final(self)@ == spec_backspace(old(self)@),
    {
        if self.search_query.as_str().unicode_len() > 0 {
            return;
        }
        let cur = self.path.clone();
        self.path = up_path(cur.as_str());
        self.cursor = None;
    }

    /// A click on a column header.
    pub fn sort_by_column(&mut self, by: SortBy)
        requires
            old(self).wf(),
        ensures
            final(self).wf(),
            final(self)@ == spec_sort_by(old(self)@, by),
    {
        if self.sort_by == by {
            self.sort_dir = match self.sort_dir {
                SortDir::Asc => SortDir::Desc,
                SortDir::Desc => SortDir::Asc,
            };
        } else {
            self.sort_by = by;
            self.sort_dir = SortDir::Asc;
        }
    }

    /// Switch between list and grid.
    pub fn toggle_view_mode(&mut self)
        requires
            old(self).wf(),
        ensures
            final(self).wf(),
            final(self)@ == spec_toggle_view(old(self)@),
    {
        self.view_mode = match self.view_mode {
            ViewMode::List => ViewMode::Grid,
            ViewMode::Grid => ViewMode::List,
        };
    }

    /// Choose list or grid.
    pub fn set_view_mode(&mut self, mode: ViewMode)
        requires
            old(self).wf(),
        ensures
            final(self).wf(),
            final(self)@ == (BrowserView { view_mode: mode, ..old(self)@ }),
    {
        self.view_mode = mode;
    }

    /// Expand or collapse the resolver of a conflict row.
    pub fn toggle_conflict(&mut self, key: String)
        requires
            old(self).wf(),
        ensures
            final(self).wf(),
            final(self)@ == spec_toggle_conflict(old(self)@, key@),
    {
        let same = match &self.expanded_conflict {
            Some(e) => str_eq(e.as_str(), key.as_str()),
            None => false,
        };
        if same {
            self.expanded_conflict = None;
        } else {
            self.expanded_conflict = Some(key);
        }
    }

    /// The query typed in the search box changed: the previous hits are
    /// dropped, and a query with more than whitespace switches to the search
    /// screen. Returns whether a search should run.
    pub fn set_search_query(&mut self, q: String) -> (run: bool)
        requires
            old(self).wf(),
        ensures
            final(self).wf(),
            run == !is_blank(q@),
            final(self)@ == (if is_blank(q@) {
                BrowserView { query: q@, hits: Seq::empty(), ..old(self)@ }
            } else {
                BrowserView { query: q@, hits: Seq::empty(), screen: Screen::Search, ..old(self)@ }
            }),
    {
        let empty = blank(q.as_str());
        self.search_query = q;
        self.search_hits = Vec::new();
        assert(hits_view(self.search_hits@) =~= Seq::<(Seq<char>, Option<Seq<char>>)>::empty());
        if empty {
            false
        } else {
            self.screen = Screen::Search;
            true
        }
    }

    /// Search results arrived for query `q`; they are kept only if `q` is
    /// still the current query.
    pub fn search_results(&mut self, q: &str, hits: Vec<SearchHit>)
        requires
            old(self).wf(),
        ensures
            final(self).wf(),
            final(self)@ == (if old(self)@.query == q@ {
                BrowserView { hits: hits_view(hits@), ..old(self)@ }
            } else {
                old(self)@
            }),
            old(self)@.query == q@ ==> final(self).search_hits@ == hits@,
            old(self)@.query != q@ ==> final(self).search_hits@ == old(self).search_hits@,
    {
        if str_eq(self.search_query.as_str(), q) {
            self.search_hits = hits;
        }
    }

    /// Show a screen; returns what else the client should do.
    pub fn navigate(&mut self, screen: Screen) -> (e: NavEffect)
        requires
            old(self).wf(),
        ensures
            final(self).wf(),
            final(self)@ == (BrowserView { screen, ..old(self)@ }),
            e == (if screen == Screen::Search {
                NavEffect::FocusSearch
            } else if screen == Screen::Activity || screen == Screen::Overview {
                NavEffect::FetchActivity
            } else {
                NavEffect::Nothing
            }),
    {
        self.screen = screen;
        if screen == Screen::Search {
            NavEffect::FocusSearch
        } else if screen == Screen::Activity || screen == Screen::Overview {
            NavEffect::FetchActivity
        } else {
            NavEffect::Nothing
        }
    }

    /// The result of an action sent to the daemon: an error is remembered,
    /// success clears it.
    pub fn action_result(&mut self, err: Option<String>)
        requires
            old(self).wf(),
        ensures
            final(self).wf(),
            final(self)@ == (BrowserView { last_error: opt_str(err), ..old(self)@ }),
    {
        self.last_error = err;
    }

    /// Select `key` alone (a plain click on a file).
    pub fn select_file(&mut self, key: String)
        requires
            old(self).wf(),
        ensures
            final(self).wf(),
            final(self)@ == (BrowserView { selection: only(key@), anchor: Some(key@), ..old(self)@ }),
    {
        let mut sel: Vec<String> = Vec::new();
        let anchor = key.clone();
        sel.push(key);
        proof {
            assert(views(sel@) =~= seq![anchor@]);
            lemma_push_to_set(Seq::<Seq<char>>::empty(), anchor@);
            assert(views(sel@).to_set() =~= only(anchor@));
        }
        self.selection = sel;
        self.selection_anchor = Some(anchor);
    }

    /// Drop the selection and close the menu.
    pub fn clear_selection(&mut self)
        requires
            old(self).wf(),
        ensures
            final(self).wf(),
            final(self)@ == (BrowserView {
                selection: Set::empty(),
                anchor: None,
                menu: None,
                ..old(self)@
            }),
    {
        self.selection = Vec::new();
        self.selection_anchor = None;
        self.context_menu = None;
        assert(views(self.selection@).to_set() =~= Set::<Seq<char>>::empty());
    }

    /// Arrow keys: move the cursor by `delta` over the current folder's
    /// entries in `snapshot`.
    pub fn move_cursor(&mut self, snapshot: &Snapshot, delta: i32)
        requires
            old(self).wf(),
            listing(snapshot.files@, old(self)@.path).len() <= i32::MAX,
            old(self).cursor matches Some(c) ==> c <= i32::MAX && i32::MIN <= c + delta <= i32::MAX,
        ensures
            final(self).wf(),
            final(self)@ == spec_move_cursor(old(self)@, listing(snapshot.files@, old(self)@.path), delta as int),
    {
        if !blank(self.search_query.as_str()) {
            return;
        }
        let items = visible_items(snapshot, self.path.as_str());
        let ghost lst = listing(snapshot.files@, self@.path);
        assert(items@.len() == lst.len());
        if items.len() == 0 {
            self.cursor = None;
            return;
        }
        let n: i64 = items.len() as i64;
        let next: usize = match self.cursor {
            None => {
                if delta > 0 {
                    0
                } else {
                    items.len() - 1
                }
            },
            Some(cur) => {
                let sum: i64 = cur as i64 + delta as i64;
                match sum.checked_rem_euclid(n) {
                    Some(m) => m as usize,
                    None => 0,
                }
            },
        };
        assert(item_view(items@[next as int]) == lst[next as int]);
        self.cursor = Some(next);
        let anchor = item_key(&items[next]);
        let mut sel: Vec<String> = Vec::new();
        match &items[next] {
            Item::File(k) => {
                sel.push(k.clone());
                proof {
                    assert(views(sel@) =~= seq![k@]);
                    lemma_push_to_set(Seq::<Seq<char>>::empty(), k@);
                    assert(views(sel@).to_set() =~= only(k@));
                }
            },
            Item::Folder(_) => {
                assert(views(sel@).to_set() =~= Set::<Seq<char>>::empty());
            },
        }
        self.selection = sel;
        self.selection_anchor = Some(anchor);
    }

    /// Enter: the entry under the cursor, to be opened (a folder) or
    /// launched (a file).
    pub fn activate_cursor(&self, snapshot: &Snapshot) -> (r: Option<Item>)
        ensures
            match r {
                Some(it) => self.cursor matches Some(c) && c < listing(snapshot.files@, self@.path).len()
                    && item_view(it) == listing(snapshot.files@, self@.path)[c as int],
                None => !(self.cursor matches Some(c) && c < listing(snapshot.files@, self@.path).len()),
            },
    {
        let items = visible_items(snapshot, self.path.as_str());
        let ghost lst = listing(snapshot.files@, self@.path);
        assert(items@.len() == lst.len());
        match self.cursor {
            Some(c) => {
                if c < items.len() {
                    assert(item_view(items@[c as int]) == lst[c as int]);
                    Some(copy_item(&items[c]))
                } else {
                    None
                }
            },
            None => None,
        }
    }

    /// A click on entry `key` of the current folder of `snapshot`, with
    /// selection `mode`; closes the menu.
    pub fn select_item(&mut self, snapshot: &Snapshot, key: String, mode: SelectionMode)
        requires
            old(self).wf(),
        ensures
            final(self).wf(),
            final(self)@ == spec_select(old(self)@, listing(snapshot.files@, old(self)@.path), key@, mode),
    {
        match mode {
            SelectionMode::Single => {
                let anchor = key.clone();
                let mut sel: Vec<String> = Vec::new();
                sel.push(key);
                proof {
                    assert(views(sel@) =~= seq![anchor@]);
                    lemma_push_to_set(Seq::<Seq<char>>::empty(), anchor@);
                    assert(views(sel@).to_set() =~= only(anchor@));
                }
                self.selection = sel;
                self.selection_anchor = Some(anchor);
            },
            SelectionMode::ToggleAdd => {
                if contains_str(&self.selection, key.as_str()) {
                    remove_sorted(&mut self.selection, key.as_str());
                } else {
                    insert_sorted(&mut self.selection, key.clone());
                }
                self.selection_anchor = Some(key);
            },
            SelectionMode::Range => {
                let items = visible_items(snapshot, self.path.as_str());
                let anchor_key = match &self.selection_anchor {
                    Some(a) => a.clone(),
                    None => key.clone(),
                };
                let a = position_of(&items, anchor_key.as_str());
                let t = position_of(&items, key.as_str());
                match (a, t) {
                    (Some(a), Some(t)) => {
                        proof {
                            assert(index_of_name(items@.map_values(|i: Item| item_view(i)), anchor_key@) == Some(a as int));
                        }
                        let sel = if a <= t {
                            files_in_range(&items, a, t)
                        } else {
                            files_in_range(&items, t, a)
                        };
                        self.selection = sel;
                    },
                    _ => {},
                }
                self.selection_anchor = Some(anchor_key);
            },
        }
        self.context_menu = None;
    }

    /// A mouse press on file `key`: the modifiers held pick the selection
    /// mode ([`click_mode`]).
    pub fn file_pressed(&mut self, snapshot: &Snapshot, key: String, shift: bool, ctrl: bool)
        requires
            old(self).wf(),
        ensures
            final(self).wf(),
            final(self)@ == spec_select(
                old(self)@,
                listing(snapshot.files@, old(self)@.path),
                key@,
                click_mode(shift, ctrl),
            ),
    {
        let mode = if shift {
            SelectionMode::Range
        } else if ctrl {
            SelectionMode::ToggleAdd
        } else {
            SelectionMode::Single
        };
        self.select_item(snapshot, key, mode);
    }

    /// Select every file of the current folder of `snapshot`; the first of
    /// them becomes the anchor.
    pub fn select_all(&mut self, snapshot: &Snapshot)
        requires
            old(self).wf(),
        ensures
            final(self).wf(),
            final(self)@ == (BrowserView {
                selection: snapshot.files@.filter(|f: FileStat| file_in(f, old(self)@.path)).map_values(
                    |f: FileStat| f.key@,
                ).to_set(),
                anchor: if snapshot.files@.filter(|f: FileStat| file_in(f, old(self)@.path)).len() > 0 {
                    Some(snapshot.files@.filter(|f: FileStat| file_in(f, old(self)@.path))[0].key@)
                } else {
                    None
                },
                menu: None,
                ..old(self)@
            }),
    {
        let (_, files) = split_dirs(snapshot, self.path.as_str());
        let ghost fk = files@.map_values(|f: FileStat| f.key@);
        let mut sel: Vec<String> = Vec::new();
        let mut i: usize = 0;
        assert(fk.take(0).to_set() =~= Set::<Seq<char>>::empty());
        while i < files.len()
            invariant
                i <= files@.len(),
                fk == files@.map_values(|f: FileStat| f.key@),
                strictly_sorted(views(sel@)),
                views(sel@).to_set() == fk.take(i as int).to_set(),
            decreases files@.len() - i,
        {
            insert_sorted(&mut sel, files[i].key.clone());
            proof {
                assert(fk.take(i + 1) =~= fk.take(i as int).push(fk[i as int]));
                lemma_push_to_set(fk.take(i as int), fk[i as int]);
            }
            i += 1;
        }
        assert(fk.take(files@.len() as int) =~= fk);
        self.selection = sel;
        self.selection_anchor = if files.len() > 0 {
            Some(files[0].key.clone())
        } else {
            None
        };
        self.context_menu = None;
    }

    /// A right click on entry `key`.
    pub fn right_clicked_item(&mut self, key: String)
        requires
            old(self).wf(),
        ensures
            final(self).wf(),
            final(self)@ == spec_menu_on_item(old(self)@, key@),
    {
        if !contains_str(&self.selection, key.as_str()) {
            let anchor = key.clone();
            let mut sel: Vec<String> = Vec::new();
            sel.push(key.clone());
            proof {
                assert(views(sel@) =~= seq![anchor@]);
                lemma_push_to_set(Seq::<Seq<char>>::empty(), anchor@);
                assert(views(sel@).to_set() =~= only(anchor@));
            }
            self.selection = sel;
            self.selection_anchor = Some(anchor);
        }
        self.context_menu = Some(MenuTarget::Item(key));
    }

    /// A right click on the empty part of the file list.
    pub fn right_clicked_background(&mut self)
        requires
            old(self).wf(),
        ensures
            final(self).wf(),
            final(self)@ == (BrowserView { menu: Some(None), ..old(self)@ }),
    {
        self.context_menu = Some(MenuTarget::FileListBackground);
    }

    /// Open the context menu on `target`.
    pub fn open_context_menu(&mut self, target: MenuTarget)
        requires
            old(self).wf(),
        ensures
            final(self).wf(),
            final(self)@ == match target {
                MenuTarget::Item(k) => spec_menu_on_item(old(self)@, k@),
                MenuTarget::FileListBackground => BrowserView { menu: Some(None), ..old(self)@ },
            },
    {
        match target {
            MenuTarget::Item(k) => self.right_clicked_item(k),
            MenuTarget::FileListBackground => self.right_clicked_background(),
        }
    }

    /// Put the selection on the clipboard, to be copied (`Copy`) or moved
    /// (`Cut`); closes the menu.
    pub fn clipboard_put(&mut self, op: ClipboardOp)
        requires
            old(self).wf(),
        ensures
            final(self).wf(),
            final(self)@ == (BrowserView {
                clipboard: Some((op, sorted_keys(old(self)@.selection))),
                menu: None,
                ..old(self)@
            }),
    {
        let keys = copy_strings(&self.selection);
        proof {
            lemma_sorted_same_set(sorted_keys(self@.selection), views(self.selection@));
        }
        self.clipboard = Some((op, keys));
        self.context_menu = None;
    }

    /// Paste: closes the menu and, when the clipboard holds entries, returns
    /// the notice to show ([`paste_notice`]); the clipboard is kept.
    pub fn clipboard_paste(&mut self) -> (notice: Option<String>)
        requires
            old(self).wf(),
        ensures
            final(self).wf(),
            final(self)@ == (BrowserView { menu: None, ..old(self)@ }),
            match old(self)@.clipboard {
                Some((op, keys)) => notice matches Some(m) && m@ == paste_notice(keys.len(), op),
                None => notice is None,
            },
    {
        self.context_menu = None;
        match &self.clipboard {
            Some((op, keys)) => {
                let mut m = String::new();
                push_str(&mut m, "Paste ");
                push_decimal(&mut m, keys.len() as u64);
                push_str(&mut m, " item(s) (");
                match op {
                    ClipboardOp::Copy => push_str(&mut m, "copy"),
                    ClipboardOp::Cut => push_str(&mut m, "move"),
                }
                push_str(&mut m, ") \u{2014} awaiting engine support");
                proof {
                    assert(m@ =~= paste_notice(views(keys@).len(), *op));
                }
                Some(m)
            },
            None => None,
        }
    }

    /// The pointer moved far enough from where a file was pressed: the
    /// selection, if any, starts being dragged.
    pub fn begin_drag(&mut self)
        requires
            old(self).wf(),
        ensures
            final(self).wf(),
            final(self)@ == (if old(self)@.drag is None && old(self)@.selection != Set::<Seq<char>>::empty() {
                BrowserView { drag: Some(sorted_keys(old(self)@.selection)), ..old(self)@ }
            } else {
                old(self)@
            }),
    {
        if self.drag.is_none() && self.selection.len() > 0 {
            let keys = copy_strings(&self.selection);
            proof {
                lemma_sorted_same_set(sorted_keys(self@.selection), views(self.selection@));
                assert(self@.selection.contains(views(self.selection@)[0]));
            }
            self.drag = Some(keys);
        } else {
            proof {
                if self.drag.is_none() {
                    assert(views(self.selection@) =~= Seq::<Seq<char>>::empty());
                    assert(self@.selection =~= Set::<Seq<char>>::empty());
                }
            }
        }
    }

    /// A drag of `items` started.
    pub fn drag_started(&mut self, items: Vec<String>)
        requires
            old(self).wf(),
        ensures
            final(self).wf(),
            final(self)@ == (BrowserView { drag: Some(views(items@)), ..old(self)@ }),
    {
        self.drag = Some(items);
    }

    /// The drag ended without a drop on a folder.
    pub fn end_drag(&mut self)
        requires
            old(self).wf(),
        ensures
            final(self).wf(),
            final(self)@ == (BrowserView { drag: None, ..old(self)@ }),
    {
        self.drag = None;
    }

    fn take_drag_notice(&mut self, folder: &str) -> (notice: Option<String>)
        requires
            old(self).wf(),
        ensures
            final(self).wf(),
            final(self)@ == (BrowserView { drag: None, ..old(self)@ }),
            match old(self)@.drag {
                Some(keys) => notice matches Some(m) && m@ == move_notice(keys.len(), folder@),
                None => notice is None,
            },
    {
        let mut d: Option<Vec<String>> = None;
        std::mem::swap(&mut d, &mut self.drag);
        match d {
            Some(keys) => {
                let mut m = String::new();
                push_str(&mut m, "Move ");
                push_decimal(&mut m, keys.len() as u64);
                push_str(&mut m, " item(s) to ");
                push_str(&mut m, folder);
                push_str(&mut m, " \u{2014} awaiting engine support");
                proof {
                    assert(m@ =~= move_notice(views(keys@).len(), folder@));
                }
                Some(m)
            },
            None => None,
        }
    }

    /// The dragged entries were dropped on `folder`: the drag ends, the menu
    /// closes, and the notice to show is returned ([`move_notice`]).
    pub fn drag_dropped_on_folder(&mut self, folder: &str) -> (notice: Option<String>)
        requires
            old(self).wf(),
        ensures
            final(self).wf(),
            final(self)@ == (BrowserView { drag: None, menu: None, ..old(self)@ }),
            match old(self)@.drag {
                Some(keys) => notice matches Some(m) && m@ == move_notice(keys.len(), folder@),
                None => notice is None,
            },
    {
        let n = self.take_drag_notice(folder);
        self.context_menu = None;
        n
    }

    /// The mouse was released over `folder`: the drag ends there; the menu
    /// is left as it is.
    pub fn folder_drop_target(&mut self, folder: &str) -> (notice: Option<String>)
        requires
            old(self).wf(),
        ensures
            final(self).wf(),
            final(self)@ == (BrowserView { drag: None, ..old(self)@ }),
            match old(self)@.drag {
                Some(keys) => notice matches Some(m) && m@ == move_notice(keys.len(), folder@),
                None => notice is None,
            },
    {
        self.take_drag_notice(folder)
    }

    /// The entries of a context menu opened on `target`, with `snapshot`
    /// listed: on the background, "Paste" (enabled when the clipboard holds
    /// entries) and "Select All"; on an entry, [`item_menu`].
    pub fn menu_entries(&self, target: &MenuTarget, snapshot: &Snapshot) -> (r: Vec<MenuEntry>)
        ensures
            r@ == match *target {
                MenuTarget::FileListBackground => seq![MenuEntry::Paste(self.clipboard is Some), MenuEntry::SelectAll],
                MenuTarget::Item(k) => item_menu(
                    k@.len() > 0 && k@.last() == '/',
                    self.selection@.len() > 1,
                    has_status(snapshot.files@, k@, FileStatus::RemoteOnly),
                    has_status(snapshot.files@, k@, FileStatus::Conflict),
                ),
            },
    {
        let mut v: Vec<MenuEntry> = Vec::new();
        match target {
            MenuTarget::FileListBackground => {
                push_entries(&mut v, MenuEntry::Paste(self.clipboard.is_some()));
                push_entries(&mut v, MenuEntry::SelectAll);
                assert(v@ =~= seq![MenuEntry::Paste(self.clipboard is Some), MenuEntry::SelectAll]);
            },
            MenuTarget::Item(key) => {
                let kv = chars_of(key.as_str());
                let is_folder = kv.len() > 0 && kv[kv.len() - 1] == '/';
                let remote = any_with_status(snapshot, key.as_str(), FileStatus::RemoteOnly);
                let conflict = any_with_status(snapshot, key.as_str(), FileStatus::Conflict);
                let multi = self.selection.len() > 1;
                if !multi {
                    if is_folder {
                        push_entries(&mut v, MenuEntry::OpenFolder);
                    } else {
                        push_entries(&mut v, MenuEntry::OpenFile);
                    }
                }
                if remote {
                    push_entries(&mut v, MenuEntry::Download);
                }
                push_entries(&mut v, MenuEntry::Copy);
                push_entries(&mut v, MenuEntry::Cut);
                push_entries(&mut v, MenuEntry::CopyPath);
                if conflict {
                    push_entries(&mut v, MenuEntry::ResolveConflict);
                }
                push_entries(&mut v, MenuEntry::Rename);
                push_entries(&mut v, MenuEntry::Delete);
                assert(v@ =~= item_menu(is_folder, multi, remote, conflict));
            },
        }
        v
    }

    /// Close the context menu.
    pub fn close_context_menu(&mut self)
        requires
            old(self).wf(),
        ensures
            final(self).wf(),
            final(self)@ == (BrowserView { menu: None, ..old(self)@ }),
    {
        self.context_menu = None;
    }
}

/// Going back after entering a folder returns to the folder and history we
/// had, and going forward then enters it again; each step drops the cursor,
/// the selection, its anchor and the context menu.
pub proof fn law_back_undoes_open(b: BrowserView, name: Seq<char>)
    requires
        is_folder_name(name),
    ensures
        spec_back(spec_open(b, name)).path == b.path,
        spec_back(spec_open(b, name)).history == b.history,
        spec_back(spec_open(b, name)).future == seq![b.path + name],
        spec_forward(spec_back(spec_open(b, name))).path == b.path + name,
        spec_forward(spec_back(spec_open(b, name))).history == b.history.push(b.path),
        spec_forward(spec_back(spec_open(b, name))).future.len() == 0,
        spec_back(spec_open(b, name)).cursor is None,
        spec_back(spec_open(b, name)).selection == Set::<Seq<char>>::empty(),
        spec_back(spec_open(b, name)).anchor is None,
        spec_back(spec_open(b, name)).menu is None,
        spec_forward(spec_back(spec_open(b, name))).cursor is None,
        spec_forward(spec_back(spec_open(b, name))).selection == Set::<Seq<char>>::empty(),
        spec_forward(spec_back(spec_open(b, name))).anchor is None,
        spec_forward(spec_back(spec_open(b, name))).menu is None,
{
    assert(spec_open(b, name).history.drop_last() =~= b.history);
    assert(Seq::<Seq<char>>::empty().push(b.path + name) =~= seq![b.path + name]);
    assert(seq![b.path + name].drop_last() =~= Seq::<Seq<char>>::empty());
}

/// Going forward after going back returns to the folder we left, with the
/// history and the forward stack we had; the cursor, the selection, its
/// anchor and the context menu are dropped.
pub proof fn law_forward_undoes_back(b: BrowserView)
    requires
        b.history.len() > 0,
    ensures
        spec_forward(spec_back(b)).path == b.path,
        spec_forward(spec_back(b)).history == b.history,
        spec_forward(spec_back(b)).future == b.future,
        spec_forward(spec_back(b)).cursor is None,
        spec_forward(spec_back(b)).selection == Set::<Seq<char>>::empty(),
        spec_forward(spec_back(b)).anchor is None,
        spec_forward(spec_back(b)).menu is None,
{
    assert(b.history.drop_last().push(b.history.last()) =~= b.history);
    assert(b.future.push(b.path).drop_last() =~= b.future);
}

/// Clicking the sorted column twice restores the direction.
pub proof fn law_sort_twice(b: BrowserView)
    ensures
        spec_sort_by(spec_sort_by(b, b.sort_by), b.sort_by) == b,
{
}

/// Toggling the view mode twice is no change.
pub proof fn law_toggle_view_twice(b: BrowserView)
    ensures
        spec_toggle_view(spec_toggle_view(b)) == b,
{
}

/// Toggling the same conflict twice restores what was expanded, when it was
/// that conflict or nothing.
pub proof fn law_toggle_conflict_twice(b: BrowserView, key: Seq<char>)
    requires
        b.expanded is None || b.expanded == Some(key),
    ensures
        spec_toggle_conflict(spec_toggle_conflict(b, key), key) == b,
{
}

/// Toggling the same entry twice leaves the selection as it was.
pub proof fn law_toggle_select_twice(b: BrowserView, items: Seq<ItemView>, key: Seq<char>)
    ensures
        spec_select(spec_select(b, items, key, SelectionMode::ToggleAdd), items, key, SelectionMode::ToggleAdd).selection
            == b.selection,
{
    let once = spec_select(b, items, key, SelectionMode::ToggleAdd);
    let twice = spec_select(once, items, key, SelectionMode::ToggleAdd);
    if b.selection.contains(key) {
        assert(twice.selection =~= b.selection);
    } else {
        assert(twice.selection =~= b.selection);
    }
}

/// The keyboard cursor always lands on a listed entry, and the entry under
/// it becomes the anchor.
pub proof fn law_cursor_stays_on_an_entry(b: BrowserView, items: Seq<ItemView>, delta: int)
    requires
        is_blank(b.query),
        0 < items.len() <= usize::MAX,
    ensures
        spec_move_cursor(b, items, delta).cursor matches Some(c) && c < items.len()
            && spec_move_cursor(b, items, delta).anchor == Some(item_name(items[c as int])),
{
    let n = items.len() as int;
    match b.cursor {
        Some(c) => {
            let x = c + delta;
            assert(0 <= x % n < n) by (nonlinear_arith)
                requires
                    n > 0,
            ;
            assert((x % n) as usize as int == x % n);
        },
        None => {},
    }
}

/// A range selection holds the files at both of its ends.
pub proof fn law_range_holds_both_ends(b: BrowserView, items: Seq<ItemView>, key: Seq<char>)
    requires
        b.anchor matches Some(a) && index_of_name(items, a) is Some,
        index_of_name(items, key) is Some,
    ensures
        forall|i: int|
            (index_of_name(items, b.anchor->0) == Some(i) || index_of_name(items, key) == Some(i))
                && items[i] is File ==> spec_select(b, items, key, SelectionMode::Range).selection.contains(
                item_name(items[i]),
            ),
{
    lemma_index_of_name_bounds(items, b.anchor->0);
    lemma_index_of_name_bounds(items, key);
    assert forall|i: int|
        (index_of_name(items, b.anchor->0) == Some(i) || index_of_name(items, key) == Some(i))
            && items[i] is File implies spec_select(b, items, key, SelectionMode::Range).selection.contains(
            item_name(items[i]),
        ) by {
        let k = item_name(items[i]);
        assert(items[i] == ItemView::File(k));
    }
}

} // verus!
