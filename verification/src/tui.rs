//! The terminal client's state logic: its three tabs (Files, Conflicts,
//! Activity), the list selection, what each key does, and the activity log
//! it keeps.

use vstd::prelude::*;
use crate::engine::{ActivityEntry, FileStat, FileStatus, Snapshot};
use crate::keyed::views;
use crate::protocol::Resolution;

verus! {

/// The number of tabs.
pub const TAB_COUNT: usize = 3;

/// The most activity lines the client keeps.
pub const ACTIVITY_KEEP: usize = 500;

/// The keys of the files in conflict, in snapshot order.
pub open spec fn conflict_keys(files: Seq<FileStat>) -> Seq<Seq<char>> {
    files.filter(|f: FileStat| f.status == FileStatus::Conflict).map_values(|f: FileStat| f.key@)
}

/// The keys of the files in conflict, in snapshot order.
pub fn refresh_conflicts(snapshot: &Snapshot) -> (r: Vec<String>)
    ensures
        views(r@) == conflict_keys(snapshot.files@),
{
    let ghost all = snapshot.files@;
    let ghost pred = |f: FileStat| f.status == FileStatus::Conflict;
    let mut out: Vec<String> = Vec::new();
    let mut i: usize = 0;
    while i < snapshot.files.len()
        invariant
            i <= all.len(),
            all == snapshot.files@,
            pred == (|f: FileStat| f.status == FileStatus::Conflict),
            views(out@) == all.take(i as int).filter(pred).map_values(|f: FileStat| f.key@),
        decreases all.len() - i,
    {
        proof {
            reveal(Seq::filter);
            assert(all.take(i + 1).drop_last() =~= all.take(i as int));
        }
        let f = &snapshot.files[i];
        if f.status == FileStatus::Conflict {
            let ghost before = out@;
            out.push(f.key.clone());
            assert(views(out@) =~= views(before).push(f.key@));
        }
        proof {
            assert(all.take(i + 1).filter(pred) == (if pred(all[i as int]) {
                all.take(i as int).filter(pred).push(all[i as int])
            } else {
                all.take(i as int).filter(pred)
            }));
            assert(views(out@) =~= all.take(i + 1).filter(pred).map_values(|f: FileStat| f.key@));
        }
        i += 1;
    }
    assert(all.take(all.len() as int) =~= all);
    out
}

/// The selection after moving by `delta` in a list of `len` entries:
/// from no selection the first entry counts as selected; moving before the
/// first wraps to the last and past the last wraps to the first.
pub open spec fn spec_move_selection(selected: Option<usize>, len: nat, delta: int) -> Option<usize> {
    if len == 0 {
        None
    } else {
        let i: int = match selected {
            Some(s) => s as int,
            None => 0,
        };
        let next = i + delta;
        if next < 0 {
            Some((len - 1) as usize)
        } else if next >= len {
            Some(0)
        } else {
            Some(next as usize)
        }
    }
}

/// Moves the selection of a list of `len` entries by `delta`.
pub fn move_selection(selected: Option<usize>, len: usize, delta: i32) -> (r: Option<usize>)
    requires
        len <= i32::MAX,
        selected matches Some(s) ==> s <= i32::MAX && i32::MIN <= s + delta <= i32::MAX,
        selected is None ==> i32::MIN <= delta <= i32::MAX,
    ensures
        r == spec_move_selection(selected, len as nat, delta as int),
{
    if len == 0 {
        return None;
    }
    let i: i64 = match selected {
        Some(s) => s as i64,
        None => 0,
    };
    let next: i64 = i + delta as i64;
    if next < 0 {
        Some(len - 1)
    } else if next >= len as i64 {
        Some(0)
    } else {
        Some(next as usize)
    }
}

/// A key the terminal client reacts to.
#[derive(Debug, Clone, Copy, PartialEq, Eq, Structural)]
pub enum Key {
    Char(char),
    Esc,
    Tab,
    BackTab,
    Up,
    Down,
    Other,
}

/// What a key press asks for.
#[derive(Debug, Clone, Copy, PartialEq, Eq, Structural)]
pub enum Command {
    Quit,
    /// Show tab `n`.
    ShowTab(usize),
    /// Move the selection.
    Move(i32),
    SyncNow,
    Pause,
    Resume,
    /// Resolve the conflict at this position of the conflict list.
    Resolve(usize, Resolution),
    Nothing,
}

/// The command of key `k`, on tab `tab`, with the list selection
/// `selected`, while sync is `paused` or not: `q`/Esc quit; `1`-`3` pick a
/// tab, Tab and BackTab cycle; Down/`j` and Up/`k` move; `r` syncs; `p`
/// pauses or resumes; on the conflicts tab `l`, `o` and `b` keep the local
/// copy, the remote copy or both, for the selected conflict (the first when
/// none is selected).
pub open spec fn spec_command(k: Key, tab: usize, selected: Option<usize>, paused: bool) -> Command {
    let sel: usize = match selected {
        Some(s) => s,
        None => 0,
    };
    match k {
        Key::Esc => Command::Quit,
        Key::Char(c) => if c == 'q' {
            Command::Quit
        } else if c == '1' {
            Command::ShowTab(0)
        } else if c == '2' {
            Command::ShowTab(1)
        } else if c == '3' {
            Command::ShowTab(2)
        } else if c == 'j' {
            Command::Move(1i32)
        } else if c == 'k' {
            Command::Move(-1i32)
        } else if c == 'r' {
            Command::SyncNow
        } else if c == 'p' {
            if paused {
                Command::Resume
            } else {
                Command::Pause
            }
        } else if tab == 1 && c == 'l' {
            Command::Resolve(sel, Resolution::KeepLocal)
        } else if tab == 1 && c == 'o' {
            Command::Resolve(sel, Resolution::KeepRemote)
        } else if tab == 1 && c == 'b' {
            Command::Resolve(sel, Resolution::KeepBoth)
        } else {
            Command::Nothing
        },
        Key::Tab => Command::ShowTab(((tab + 1) % 3) as usize),
        Key::BackTab => Command::ShowTab(((tab + 3 - 1) % 3) as usize),
        Key::Down => Command::Move(1i32),
        Key::Up => Command::Move(-1i32),
        Key::Other => Command::Nothing,
    }
}

/// The command of a key press (see [`spec_command`]).
pub fn key_command(k: Key, tab: usize, selected: Option<usize>, paused: bool) -> (c: Command)
    requires
        tab < usize::MAX - 3,
    ensures
        c == spec_command(k, tab, selected, paused),
{
    let sel: usize = match selected {
        Some(s) => s,
        None => 0,
    };
    match k {
        Key::Esc => Command::Quit,
        Key::Char(c) => {
            if c == 'q' {
                Command::Quit
            } else if c == '1' {
                Command::ShowTab(0)
            } else if c == '2' {
                Command::ShowTab(1)
            } else if c == '3' {
                Command::ShowTab(2)
            } else if c == 'j' {
                Command::Move(1)
            } else if c == 'k' {
                Command::Move(-1)
            } else if c == 'r' {
                Command::SyncNow
            } else if c == 'p' {
                if paused {
                    Command::Resume
                } else {
                    Command::Pause
                }
            } else if tab == 1 && c == 'l' {
                Command::Resolve(sel, Resolution::KeepLocal)
            } else if tab == 1 && c == 'o' {
                Command::Resolve(sel, Resolution::KeepRemote)
            } else if tab == 1 && c == 'b' {
                Command::Resolve(sel, Resolution::KeepBoth)
            } else {
                Command::Nothing
            }
        },
        Key::Tab => Command::ShowTab((tab + 1) % TAB_COUNT),
        Key::BackTab => Command::ShowTab((tab + TAB_COUNT - 1) % TAB_COUNT),
        Key::Down => Command::Move(1),
        Key::Up => Command::Move(-1),
        Key::Other => Command::Nothing,
    }
}

/// The last `ACTIVITY_KEEP` entries of `s`.
pub open spec fn keep_recent<T>(s: Seq<T>) -> Seq<T> {
    if s.len() > ACTIVITY_KEEP {
        s.skip(s.len() - ACTIVITY_KEEP)
    } else {
        s
    }
}

/// Appends newly fetched activity to the log, keeping the most recent
/// `ACTIVITY_KEEP` entries.
pub fn append_activity(log: &mut Vec<ActivityEntry>, new: Vec<ActivityEntry>)
    ensures
        final(log)@ == keep_recent(old(log)@ + new@),
{
    let ghost start = log@;
    let mut all: Vec<ActivityEntry> = Vec::new();
    std::mem::swap(&mut all, log);
    let ghost ns = new@;
    for e in it: new.into_iter()
        invariant
            it.seq() == ns,
            all@ == start + ns.take(it.index() as int),
    {
        all.push(e);
        assert(ns.take(it.index() + 1) =~= ns.take(it.index() as int).push(e));
    }
    assert(ns.take(ns.len() as int) =~= ns);
    let n = all.len();
    if n > ACTIVITY_KEEP {
        let drop_n = n - ACTIVITY_KEEP;
        let ghost whole = all@;
        let kept = all.split_off(drop_n);
        assert(kept@ =~= whole.skip(drop_n as int));
        *log = kept;
    } else {
        *log = all;
    }
}

} // verus!
