//! Text the clients show: the sync state, how long ago something happened,
//! the folder breadcrumb, and the terminal client's help line.

use vstd::prelude::*;
use crate::engine::{now_millis, FileStatus, Status};
use crate::text::{chars_of, decimal, opt_view, owned, push_decimal, push_str, string_of, sub_chars};
use crate::extract::{last_pos, strip_trailing_slashes};

verus! {

/// The sync state a client shows.
#[derive(Debug, Clone, Copy, PartialEq, Eq, Structural)]
pub enum SyncState {
    Paused,
    /// Synced, at this time (milliseconds since the epoch).
    Synced(u64),
    /// Not paused and not yet synced.
    Syncing,
}

/// Paused wins; otherwise the last sync time, if there was one.
pub fn sync_state(s: &Status) -> (r: SyncState)
    ensures
        r == (if s.paused {
            SyncState::Paused
        } else {
            match s.last_sync_millis {
                Some(ms) => SyncState::Synced(ms),
                None => SyncState::Syncing,
            }
        }),
{
    if s.paused {
        SyncState::Paused
    } else {
        match s.last_sync_millis {
            Some(ms) => SyncState::Synced(ms),
            None => SyncState::Syncing,
        }
    }
}

/// How long before `now` the instant `then` was (both in milliseconds):
/// whole seconds under a minute, whole minutes under an hour, else whole
/// hours; an instant in the future counts as now.
pub open spec fn spec_ago(now: u64, then: u64) -> Seq<char> {
    let secs: nat = (if now >= then { (now - then) as nat } else { 0 }) / 1000;
    if secs < 60 {
        decimal(secs) + "s ago"@
    } else if secs < 3600 {
        decimal(secs / 60) + "m ago"@
    } else {
        decimal(secs / 3600) + "h ago"@
    }
}

/// How long before `now` the instant `then` was (see [`spec_ago`]).
pub fn ago_text(now: u64, then: u64) -> (r: String)
    ensures
        r@ == spec_ago(now, then),
{
    let secs: u64 = now.saturating_sub(then) / 1000;
    let mut out = String::new();
    if secs < 60 {
        push_decimal(&mut out, secs);
        push_str(&mut out, "s ago");
    } else if secs < 3600 {
        push_decimal(&mut out, secs / 60);
        push_str(&mut out, "m ago");
    } else {
        push_decimal(&mut out, secs / 3600);
        push_str(&mut out, "h ago");
    }
    assert(out@ =~= spec_ago(now, then));
    out
}

/// How long ago the instant `ms` was, by the clock now (see [`spec_ago`]).
pub fn ms_ago(ms: u64) -> (r: String)
    ensures
        exists|now: u64| r@ == spec_ago(now, ms),
{
    let now = now_millis();
    ago_text(now, ms)
}

/// The day of the month and the month's short name (`%-d %b`, as in
/// `5 Mar`) of the instant `ms` milliseconds after the epoch, in UTC; none
/// where chrono cannot represent that instant.
pub uninterp spec fn utc_day_month(ms: int) -> Option<Seq<char>>;

/// `chrono::DateTime::<Utc>::from_timestamp_millis`, and the instant it
/// gives formatted with `%-d %b` (see [`utc_day_month`]).
#[verifier::external_body]
fn day_month(ms: i64) -> (r: Option<String>)
    ensures
        opt_view(r) == utc_day_month(ms as int),
{
    match chrono::DateTime::<chrono::Utc>::from_timestamp_millis(ms) {
        Some(dt) => Some(dt.format("%-d %b").to_string()),
        None => None,
    }
}

/// Whole days from `then` to `now` (milliseconds), rounded toward zero.
pub open spec fn days_between(now: int, then: int) -> int {
    if now >= then {
        (now - then) / 86400000
    } else {
        -((then - now) / 86400000)
    }
}

/// The date column of a file modified at `then`, with the clock at `now`
/// and `date` the day and month of `then`: `?` without a date; `Today`
/// less than a whole day either side of the clock; `Yesterday` one whole
/// day ahead of the clock; `N days ago` for N whole days ahead of it, N at
/// least two; otherwise the day and month.
pub open spec fn spec_date_label(now: int, then: int, date: Option<Seq<char>>) -> Seq<char> {
    match date {
        None => "?"@,
        Some(t) => {
            let n = days_between(now, then);
            if n == 0 {
                "Today"@
            } else if n == -1 {
                "Yesterday"@
            } else if n < 0 {
                decimal((-n) as nat) + " days ago"@
            } else {
                t
            }
        },
    }
}

/// The date column of a file (see [`spec_date_label`]).
pub fn date_label(now: i64, then: i64, date: Option<String>) -> (r: String)
    ensures
        r@ == spec_date_label(now as int, then as int, opt_view(date)),
{
    match date {
        None => owned("?"),
        Some(t) => {
            let ahead: bool = now < then;
            let diff: u128 = if ahead {
                (then as i128 - now as i128) as u128
            } else {
                (now as i128 - then as i128) as u128
            };
            let days: u128 = diff / 86400000;
            if days == 0 {
                owned("Today")
            } else if ahead && days == 1 {
                owned("Yesterday")
            } else if ahead {
                let mut out = String::new();
                push_decimal(&mut out, days as u64);
                push_str(&mut out, " days ago");
                assert(out@ =~= spec_date_label(now as int, then as int, opt_view(Some(t))));
                out
            } else {
                t
            }
        },
    }
}

/// The date column of a file modified at `mtime_millis`, by the clock now:
/// [`spec_date_label`] of the clock's reading, whatever it is.
pub fn short_date(mtime_millis: u64) -> (r: String)
    ensures
        exists|now: int|
            i64::MIN <= now <= i64::MAX && r@ == #[trigger] spec_date_label(
                now,
                (mtime_millis as i64) as int,
                utc_day_month((mtime_millis as i64) as int),
            ),
{
    let ms = mtime_millis as i64;
    let date = day_month(ms);
    let now = now_millis() as i64;
    date_label(now, ms, date)
}

/// The label of a sync state, with `ago` the time since the last sync.
pub open spec fn spec_sync_label(st: SyncState, ago: Seq<char>) -> Seq<char> {
    match st {
        SyncState::Paused => "Paused"@,
        SyncState::Synced(_) => "Synced \u{b7} "@ + ago,
        SyncState::Syncing => "Syncing"@,
    }
}

/// The label of the sync state at time `now` (milliseconds).
pub fn sync_label(st: SyncState, now: u64) -> (r: String)
    ensures
        r@ == match st {
            SyncState::Synced(ms) => spec_sync_label(st, spec_ago(now, ms)),
            _ => spec_sync_label(st, Seq::empty()),
        },
{
    match st {
        SyncState::Paused => owned("Paused"),
        SyncState::Synced(ms) => {
            let mut s = owned("Synced \u{b7} ");
            let a = ago_text(now, ms);
            push_str(&mut s, a.as_str());
            s
        },
        SyncState::Syncing => owned("Syncing"),
    }
}

/// The folder shown above the file list: the bucket at the root, else the
/// bucket, ` / ` and the folder without its trailing `/`s.
pub open spec fn spec_breadcrumb(bucket: Seq<char>, path: Seq<char>) -> Seq<char> {
    if path.len() == 0 {
        bucket
    } else {
        bucket + " / "@ + strip_trailing_slashes(path)
    }
}

/// The breadcrumb of folder `path` in `bucket` (see [`spec_breadcrumb`]).
pub fn breadcrumb(bucket: &str, path: &str) -> (r: String)
    ensures
        r@ == spec_breadcrumb(bucket@, path@),
{
    let v = chars_of(path);
    if v.len() == 0 {
        return owned(bucket);
    }
    let mut n = v.len();
    assert(v@.take(n as int) =~= v@);
    while n > 0 && v[n - 1] == '/'
        invariant
            n <= v@.len(),
            v@ == path@,
            strip_trailing_slashes(path@) == strip_trailing_slashes(v@.take(n as int)),
        decreases n,
    {
        assert(v@.take(n as int).drop_last() =~= v@.take(n - 1));
        n -= 1;
    }
    let t = sub_chars(v.as_slice(), 0, n);
    assert(t@ =~= v@.take(n as int));
    let mut s = owned(bucket);
    push_str(&mut s, " / ");
    let ts = string_of(t.as_slice());
    push_str(&mut s, ts.as_str());
    s
}

/// The name of the mirror folder: the last `/`-separated part of its path,
/// or `Mirror` when that part is empty.
pub open spec fn spec_mirror_name(root: Seq<char>) -> Seq<char> {
    let last = match last_pos(root, '/') {
        Some(i) => root.skip(i + 1),
        None => root,
    };
    if last.len() == 0 {
        "Mirror"@
    } else {
        last
    }
}

/// The name of the mirror folder (see [`spec_mirror_name`]).
pub fn mirror_name(root: &str) -> (r: String)
    ensures
        r@ == spec_mirror_name(root@),
{
    let v = chars_of(root);
    let mut n = v.len();
    assert(v@.take(n as int) =~= v@);
    while n > 0 && v[n - 1] != '/'
        invariant
            n <= v@.len(),
            v@ == root@,
            last_pos(root@, '/') == last_pos(v@.take(n as int), '/'),
            forall|k: int| n <= k < v@.len() ==> v@[k] != '/',
        decreases n,
    {
        assert(v@.take(n as int).drop_last() =~= v@.take(n - 1));
        n -= 1;
    }
    proof {
        if n > 0 {
            assert(v@.take(n as int).last() == '/');
        }
    }
    let last = sub_chars(v.as_slice(), n, v.len());
    assert(last@ =~= (match last_pos(root@, '/') {
        Some(i) => root@.skip(i + 1),
        None => root@,
    }));
    if last.len() == 0 {
        owned("Mirror")
    } else {
        string_of(last.as_slice())
    }
}

/// The caption under the breadcrumb: how many entries the folder has.
pub fn items_caption(total: usize) -> (r: String)
    ensures
        r@ == decimal(total as nat) + " items"@,
{
    let mut s = String::new();
    push_decimal(&mut s, total as u64);
    push_str(&mut s, " items");
    s
}

/// The terminal client's help line.
pub open spec fn spec_help(paused: bool, tab: usize, last_error: Option<Seq<char>>) -> Seq<char> {
    " [1/2/3] tabs  \u{2191}\u{2193} move  [r] sync-now  [p] "@ + (if paused {
        "resume"@
    } else {
        "pause"@
    }) + "  [q] quit"@ + (if tab == 1 {
        "  [l] keep-local  [o] keep-remote  [b] keep-both"@
    } else {
        Seq::empty()
    }) + match last_error {
        Some(e) => "   \u{26a0} "@ + e,
        None => Seq::empty(),
    }
}

/// The terminal client's help line (see [`spec_help`]).
pub fn help_line(paused: bool, tab: usize, last_error: &Option<String>) -> (r: String)
    ensures
        r@ == spec_help(paused, tab, match last_error {
            Some(e) => Some(e@),
            None => None,
        }),
{
    let mut s = owned(" [1/2/3] tabs  \u{2191}\u{2193} move  [r] sync-now  [p] ");
    if paused {
        push_str(&mut s, "resume");
    } else {
        push_str(&mut s, "pause");
    }
    push_str(&mut s, "  [q] quit");
    if tab == 1 {
        push_str(&mut s, "  [l] keep-local  [o] keep-remote  [b] keep-both");
    }
    match last_error {
        Some(e) => {
            push_str(&mut s, "   \u{26a0} ");
            push_str(&mut s, e.as_str());
        },
        None => {},
    }
    assert(s@ =~= spec_help(paused, tab, match last_error {
        Some(e) => Some(e@),
        None => None,
    }));
    s
}

/// What a double click on a file row does.
#[derive(Debug, Clone, Copy, PartialEq, Eq, Structural)]
pub enum RowAction {
    /// Fetch the bytes of a file known only remotely.
    Materialize,
    /// Show or hide the resolver of a conflict.
    ToggleConflict,
    /// Open the file.
    OpenFile,
}

/// The double-click action of a row with status `status`: a remote-only
/// file is fetched, a conflict shows its resolver, any other file opens.
pub fn double_click_action(status: FileStatus) -> (r: RowAction)
    ensures
        r == match status {
            FileStatus::RemoteOnly => RowAction::Materialize,
            FileStatus::Conflict => RowAction::ToggleConflict,
            _ => RowAction::OpenFile,
        },
{
    match status {
        FileStatus::RemoteOnly => RowAction::Materialize,
        FileStatus::Conflict => RowAction::ToggleConflict,
        _ => RowAction::OpenFile,
    }
}

/// The size column of a row, where it is not the file's size: `remote` for
/// a remote-only file; none otherwise (the size is shown).
pub fn row_size_label(status: FileStatus) -> (r: Option<String>)
    ensures
        status == FileStatus::RemoteOnly ==> (r matches Some(t) && t@ == "remote"@),
        status != FileStatus::RemoteOnly ==> r is None,
{
    if status == FileStatus::RemoteOnly {
        Some(owned("remote"))
    } else {
        None
    }
}

/// The date column of a row: empty for a remote-only file, else the date
/// of its modification time by the clock now (see [`short_date`]).
pub fn row_date(status: FileStatus, mtime_millis: u64) -> (r: String)
    ensures
        status == FileStatus::RemoteOnly ==> r@.len() == 0,
        status != FileStatus::RemoteOnly ==> exists|now: int|
            i64::MIN <= now <= i64::MAX && r@ == #[trigger] spec_date_label(
                now,
                (mtime_millis as i64) as int,
                utc_day_month((mtime_millis as i64) as int),
            ),
{
    if status == FileStatus::RemoteOnly {
        String::new()
    } else {
        short_date(mtime_millis)
    }
}

/// Whether a row shows the conflict resolver: a conflict that is expanded.
pub fn shows_resolver(status: FileStatus, expanded: bool) -> (r: bool)
    ensures
        r == (status == FileStatus::Conflict && expanded),
{
    status == FileStatus::Conflict && expanded
}

} // verus!
