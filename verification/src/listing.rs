//! Folder listings over a snapshot: which entries sit directly in a folder,
//! how many files are in conflict, and display text helpers.

use vstd::prelude::*;
use crate::engine::{FileStat, FileStatus, Snapshot};
use crate::keyed::{insert_sorted, strictly_sorted, views};
use crate::browser::{SortBy, SortDir};
use crate::text::{
    key_less, key_lt, lemma_key_lt_asymmetric, lemma_key_lt_total, lemma_key_lt_transitive,
    chars_of, find_char, first_index_of, lemma_first_index_of, last_index_of, lemma_last_index_of,
    rfind_char, starts_with, str_starts_with, string_of, sub_chars,
};

verus! {

impl FileStat {
    /// A copy of this row.
    pub fn duplicate(&self) -> (f: FileStat)
        ensures
            f == *self,
    {
        FileStat {
            key: self.key.clone(),
            size: self.size,
            mtime_millis: self.mtime_millis,
            status: self.status,
        }
    }
}

/// For a key below `prefix`, the first folder level under `prefix` it lies
/// in (with its trailing `/`); none when it is a file directly in `prefix`.
pub open spec fn folder_below(key: Seq<char>, prefix: Seq<char>) -> Option<Seq<char>> {
    let rest = key.skip(prefix.len() as int);
    match first_index_of(rest, '/') {
        Some(s) => Some(rest.take(s + 1)),
        None => None,
    }
}

/// The row is a file directly in folder `prefix`.
pub open spec fn file_in(f: FileStat, prefix: Seq<char>) -> bool {
    starts_with(f.key@, prefix) && folder_below(f.key@, prefix) is None
}

/// The folder level under `prefix` that row `i` of `files` lies in, if it
/// lies below `prefix` at all and not directly in it.
pub open spec fn folder_at(files: Seq<FileStat>, prefix: Seq<char>, i: int) -> Option<Seq<char>> {
    if starts_with(files[i].key@, prefix) {
        folder_below(files[i].key@, prefix)
    } else {
        None
    }
}

/// The folders directly in `prefix` that hold some row of `files`.
pub open spec fn folders_in(files: Seq<FileStat>, prefix: Seq<char>) -> Set<Seq<char>> {
    Set::new(
        |x: Seq<char>|
            exists|i: int| 0 <= i < files.len() && #[trigger] folder_at(files, prefix, i) == Some(x),
    )
}

proof fn lemma_folders_push(s: Seq<FileStat>, f: FileStat, prefix: Seq<char>)
    ensures
        folders_in(s.push(f), prefix) == match folder_at(s.push(f), prefix, s.len() as int) {
            Some(x) => folders_in(s, prefix).insert(x),
            None => folders_in(s, prefix),
        },
{
    let t = s.push(f);
    let n = s.len() as int;
    assert forall|k: int| 0 <= k < n implies folder_at(t, prefix, k) == folder_at(s, prefix, k) by {
        assert(t[k] == s[k]);
    }
    let rhs = match folder_at(t, prefix, n) {
        Some(x) => folders_in(s, prefix).insert(x),
        None => folders_in(s, prefix),
    };
    assert forall|x: Seq<char>| folders_in(t, prefix).contains(x) <==> rhs.contains(x) by {
        if folders_in(t, prefix).contains(x) {
            let k = choose|k: int| 0 <= k < t.len() && #[trigger] folder_at(t, prefix, k) == Some(x);
            if k < n {
                assert(folder_at(s, prefix, k) == Some(x));
            }
        }
        if folders_in(s, prefix).contains(x) {
            let k = choose|k: int| 0 <= k < s.len() && #[trigger] folder_at(s, prefix, k) == Some(x);
            assert(folder_at(t, prefix, k) == Some(x));
        }
        if folder_at(t, prefix, n) == Some(x) {
            assert(folders_in(t, prefix).contains(x));
        }
    }
    assert(folders_in(t, prefix) =~= rhs);
}

fn folder_below_exec(key: &Vec<char>, prefix_len: usize) -> (r: Option<Vec<char>>)
    requires
        prefix_len <= key@.len(),
    ensures
        match r {
            Some(f) => folder_below(key@, key@.take(prefix_len as int)) == Some(f@),
            None => folder_below(key@, key@.take(prefix_len as int)) is None,
        },
{
    let rest = sub_chars(key.as_slice(), prefix_len, key.len());
    assert(rest@ =~= key@.skip(prefix_len as int));
    match find_char(rest.as_slice(), '/') {
        Some(s) => {
            proof {
                lemma_first_index_of(rest@, '/');
            }
            let n = rest.len();
            assert(s < n);
            let f = sub_chars(rest.as_slice(), 0, s + 1);
            assert(f@ =~= rest@.take(s + 1));
            Some(f)
        },
        None => None,
    }
}

/// The folders and the files directly inside `prefix`: folders each once,
/// in increasing `str` order, with their trailing `/`; files in snapshot
/// order.
pub fn split_dirs(snapshot: &Snapshot, prefix: &str) -> (r: (Vec<String>, Vec<FileStat>))
    ensures
        strictly_sorted(views(r.0@)),
        views(r.0@).to_set() == folders_in(snapshot.files@, prefix@),
        r.1@ == snapshot.files@.filter(|f: FileStat| file_in(f, prefix@)),
{
    let pv = chars_of(prefix);
    let ghost all = snapshot.files@;
    let ghost pred = |f: FileStat| file_in(f, prefix@);
    let mut folders: Vec<String> = Vec::new();
    let mut files: Vec<FileStat> = Vec::new();
    let mut i: usize = 0;
    while i < snapshot.files.len()
        invariant
            i <= all.len(),
            all == snapshot.files@,
            pv@ == prefix@,
            pred == (|f: FileStat| file_in(f, prefix@)),
            strictly_sorted(views(folders@)),
            views(folders@).to_set() == folders_in(all.take(i as int), prefix@),
            files@ == all.take(i as int).filter(pred),
        decreases all.len() - i,
    {
        proof {
            reveal(Seq::filter);
            assert(all.take(i + 1).drop_last() =~= all.take(i as int));
        }
        let f = &snapshot.files[i];
        let kv = chars_of(f.key.as_str());
        let under = str_starts_with(kv.as_slice(), pv.as_slice());
        proof {
            assert(all.take(i + 1) =~= all.take(i as int).push(all[i as int]));
            lemma_folders_push(all.take(i as int), all[i as int], prefix@);
        }
        if under {
            proof {
                assert(kv@.take(pv@.len() as int) == prefix@);
            }
            match folder_below_exec(&kv, pv.len()) {
                Some(folder) => {
                    let fs = string_of(folder.as_slice());
                    insert_sorted(&mut folders, fs);
                },
                None => {
                    files.push(f.duplicate());
                },
            }
        }
        i += 1;
    }
    assert(all.take(all.len() as int) =~= all);
    (folders, files)
}

/// Number of files with status `status`.
pub fn count_with_status(snapshot: &Snapshot, status: FileStatus) -> (n: usize)
    ensures
        n == snapshot.files@.filter(|f: FileStat| f.status == status).len(),
{
    let ghost all = snapshot.files@;
    let ghost pred = |f: FileStat| f.status == status;
    let mut n: usize = 0;
    let mut i: usize = 0;
    while i < snapshot.files.len()
        invariant
            i <= all.len(),
            all == snapshot.files@,
            pred == (|f: FileStat| f.status == status),
            n == all.take(i as int).filter(pred).len(),
            n <= i,
        decreases all.len() - i,
    {
        proof {
            reveal(Seq::filter);
            assert(all.take(i + 1).drop_last() =~= all.take(i as int));
        }
        if snapshot.files[i].status == status {
            n += 1;
        }
        i += 1;
    }
    assert(all.take(all.len() as int) =~= all);
    n
}

/// Number of files flagged as conflicts.
pub fn conflict_count(snapshot: &Snapshot) -> (n: usize)
    ensures
        n == snapshot.files@.filter(|f: FileStat| f.status == FileStatus::Conflict).len(),
{
    count_with_status(snapshot, FileStatus::Conflict)
}

/// Number of files in sync, as the overview counts them.
pub fn synced_count(snapshot: &Snapshot) -> (n: usize)
    ensures
        n == snapshot.files@.filter(|f: FileStat| f.status == FileStatus::Synced).len(),
{
    count_with_status(snapshot, FileStatus::Synced)
}

/// The folder holding `key`, with its trailing `/` (empty at the top level).
pub open spec fn spec_parent_folder(key: Seq<char>) -> Seq<char> {
    match last_index_of(key, '/') {
        Some(i) => key.take(i + 1),
        None => Seq::empty(),
    }
}

/// The folder holding `key`, with its trailing `/`.
pub fn parent_folder(key: &str) -> (r: String)
    ensures
        r@ == spec_parent_folder(key@),
{
    let kv = chars_of(key);
    match rfind_char(kv.as_slice(), '/') {
        Some(i) => {
            proof {
                lemma_last_index_of(kv@, '/');
            }
            let n = kv.len();
            assert(i < n);
            let p = sub_chars(kv.as_slice(), 0, i + 1);
            assert(p@ =~= kv@.take(i + 1));
            string_of(p.as_slice())
        },
        None => String::new(),
    }
}

/// `s` with every occurrence of `p` removed, scanning left to right (as
/// `str::replace(p, "")` does).
pub open spec fn remove_all(s: Seq<char>, p: Seq<char>) -> Seq<char>
    decreases s.len(),
{
    if s.len() == 0 {
        s
    } else if p.len() > 0 && starts_with(s, p) {
        remove_all(s.skip(p.len() as int), p)
    } else {
        seq![s[0]] + remove_all(s.drop_first(), p)
    }
}

fn matches_at(s: &Vec<char>, i: usize, p: &Vec<char>) -> (r: bool)
    requires
        i <= s@.len(),
    ensures
        r == starts_with(s@.skip(i as int), p@),
{
    let n = s.len();
    if p.len() > n - i {
        return false;
    }
    let mut k: usize = 0;
    while k < p.len()
        invariant
            n == s@.len(),
            i + p@.len() <= s@.len(),
            k <= p@.len(),
            forall|m: int| 0 <= m < k ==> s@[i + m] == p@[m],
        decreases p@.len() - k,
    {
        if s[i + k] != p[k] {
            assert(s@.skip(i as int).take(p@.len() as int)[k as int] != p@[k as int]);
            return false;
        }
        k += 1;
    }
    assert(s@.skip(i as int).take(p@.len() as int) =~= p@);
    true
}

/// Removes every occurrence of `pat` from `s`, left to right.
pub fn remove_pattern(s: &str, pat: &str) -> (r: String)
    ensures
        r@ == remove_all(s@, pat@),
{
    let sv = chars_of(s);
    let pv = chars_of(pat);
    let mut out: Vec<char> = Vec::new();
    let mut i: usize = 0;
    assert(sv@.skip(0) =~= sv@);
    while i < sv.len()
        invariant
            i <= sv@.len(),
            pv@ == pat@,
            remove_all(s@, pat@) == out@ + remove_all(sv@.skip(i as int), pat@),
            sv@ == s@,
        decreases sv@.len() - i,
    {
        if pv.len() > 0 && matches_at(&sv, i, &pv) {
            assert(sv@.skip(i as int).skip(pv@.len() as int) =~= sv@.skip(i + pv@.len()));
            i = i + pv.len();
        } else {
            proof {
                assert(sv@.skip(i as int).drop_first() =~= sv@.skip(i + 1));
                assert(out@.push(sv@[i as int]) + remove_all(sv@.skip(i + 1), pat@) =~= out@ + (
                seq![sv@.skip(i as int)[0]] + remove_all(sv@.skip(i as int).drop_first(), pat@)));
            }
            out.push(sv[i]);
            i += 1;
        }
    }
    assert(out@ + remove_all(sv@.skip(i as int), pat@) =~= out@);
    string_of(out.as_slice())
}

/// A search snippet without its `<mark>` highlighting tags.
pub fn strip_marks(s: &str) -> (r: String)
    ensures
        r@ == remove_all(remove_all(s@, "<mark>"@), "</mark>"@),
{
    let once = remove_pattern(s, "<mark>");
    remove_pattern(once.as_str(), "</mark>")
}

/// `a` sorts strictly before `b` by column `by`, ascending.
pub open spec fn rank_lt(a: FileStat, b: FileStat, by: SortBy) -> bool {
    match by {
        SortBy::Name => key_lt(a.key@, b.key@),
        SortBy::Size => a.size < b.size,
        SortBy::Modified => a.mtime_millis < b.mtime_millis,
    }
}

/// `a` goes strictly before `b` in direction `dir`.
pub open spec fn goes_before(a: FileStat, b: FileStat, by: SortBy, dir: SortDir) -> bool {
    match dir {
        SortDir::Asc => rank_lt(a, b, by),
        SortDir::Desc => rank_lt(b, a, by),
    }
}

/// No row of `s` goes before an earlier one.
pub open spec fn sorted_for(s: Seq<FileStat>, by: SortBy, dir: SortDir) -> bool {
    forall|i: int, j: int| 0 <= i < j < s.len() ==> !goes_before(s[j], s[i], by, dir)
}

/// `p` places each row of `r` at a distinct position of `s`, keeping rows
/// of equal rank in their order in `s`.
pub open spec fn stable_placement(s: Seq<FileStat>, r: Seq<FileStat>, p: Seq<int>, by: SortBy, dir: SortDir) -> bool {
    &&& p.len() == r.len()
    &&& forall|k: int| 0 <= k < r.len() ==> 0 <= #[trigger] p[k] < s.len() && r[k] == s[p[k]]
    &&& forall|a: int, b: int| 0 <= a < b < r.len() ==> p[a] != p[b]
    &&& forall|a: int, b: int|
        0 <= a < b < r.len() && !goes_before(r[a], r[b], by, dir) && !goes_before(r[b], r[a], by, dir)
            ==> p[a] < p[b]
}

/// `r` is `s` sorted by `by` in direction `dir`, rows of equal rank keeping
/// their order (a stable sort).
pub open spec fn stable_sort_of(s: Seq<FileStat>, r: Seq<FileStat>, by: SortBy, dir: SortDir) -> bool {
    &&& r.len() == s.len()
    &&& sorted_for(r, by, dir)
    &&& exists|p: Seq<int>| stable_placement(s, r, p, by, dir)
}

proof fn lemma_goes_before_order(x: FileStat, y: FileStat, z: FileStat, by: SortBy, dir: SortDir)
    ensures
        goes_before(x, y, by, dir) && !goes_before(z, y, by, dir) ==> goes_before(x, z, by, dir),
        goes_before(x, y, by, dir) ==> !goes_before(y, x, by, dir),
{
    match by {
        SortBy::Name => {
            lemma_key_lt_total(y.key@, z.key@);
            if key_lt(x.key@, y.key@) && key_lt(y.key@, z.key@) {
                lemma_key_lt_transitive(x.key@, y.key@, z.key@);
            }
            if key_lt(z.key@, y.key@) && key_lt(y.key@, x.key@) {
                lemma_key_lt_transitive(z.key@, y.key@, x.key@);
            }
            if key_lt(x.key@, y.key@) {
                lemma_key_lt_asymmetric(x.key@, y.key@);
            }
            if key_lt(y.key@, x.key@) {
                lemma_key_lt_asymmetric(y.key@, x.key@);
            }
        },
        _ => {},
    }
}

fn before_exec(a: &FileStat, b: &FileStat, by: SortBy, dir: SortDir) -> (r: bool)
    ensures
        r == goes_before(*a, *b, by, dir),
{
    let (x, y) = match dir {
        SortDir::Asc => (a, b),
        SortDir::Desc => (b, a),
    };
    match by {
        SortBy::Name => key_less(x.key.as_str(), y.key.as_str()),
        SortBy::Size => x.size < y.size,
        SortBy::Modified => x.mtime_millis < y.mtime_millis,
    }
}

/// Sorts the rows of a listing by a column, in a direction; rows of equal
/// rank keep their order.
pub fn sort_files(files: &mut Vec<FileStat>, by: SortBy, dir: SortDir)
    ensures
        stable_sort_of(old(files)@, final(files)@, by, dir),
{
    let ghost s = files@;
    let mut out: Vec<FileStat> = Vec::new();
    let ghost mut p: Seq<int> = Seq::empty();
    let mut i: usize = 0;
    while i < files.len()
        invariant
            s == files@,
            i <= s.len(),
            out@.len() == i,
            sorted_for(out@, by, dir),
            p.len() == i,
            forall|k: int| 0 <= k < i ==> 0 <= #[trigger] p[k] < i && out@[k] == s[p[k]],
            forall|a: int, b: int| 0 <= a < b < i ==> p[a] != p[b],
            forall|a: int, b: int|
                0 <= a < b < i && !goes_before(out@[a], out@[b], by, dir) && !goes_before(out@[b], out@[a], by, dir)
                    ==> p[a] < p[b],
        decreases s.len() - i,
    {
        let x = files[i].duplicate();
        let mut pos: usize = 0;
        while pos < out.len() && !before_exec(&x, &out[pos], by, dir)
            invariant
                pos <= out@.len(),
                forall|a: int| 0 <= a < pos ==> !goes_before(x, #[trigger] out@[a], by, dir),
            decreases out@.len() - pos,
        {
            pos += 1;
        }
        proof {
            assert forall|b: int| pos <= b < out@.len() implies goes_before(x, #[trigger] out@[b], by, dir) by {
                if b > pos {
                    lemma_goes_before_order(x, out@[pos as int], out@[b], by, dir);
                }
            }
        }
        let ghost old_out = out@;
        let ghost old_p = p;
        out.insert(pos, x);
        proof {
            p = old_p.insert(pos as int, i as int);
            let n = out@;
            assert(n =~= old_out.insert(pos as int, x));
            assert forall|a: int, b: int| 0 <= a < b < n.len() implies !goes_before(n[b], n[a], by, dir) by {
                if b < pos {
                } else if b == pos {
                    assert(n[b] == x);
                } else if a < pos {
                    assert(n[b] == old_out[b - 1]);
                } else if a == pos {
                    assert(n[b] == old_out[b - 1]);
                    lemma_goes_before_order(x, old_out[b - 1], x, by, dir);
                } else {
                    assert(n[a] == old_out[a - 1]);
                    assert(n[b] == old_out[b - 1]);
                }
            }
            assert forall|k: int| 0 <= k < i + 1 implies 0 <= #[trigger] p[k] < i + 1 && n[k] == s[p[k]] by {
                if k < pos {
                    assert(p[k] == old_p[k]);
                } else if k > pos {
                    assert(p[k] == old_p[k - 1]);
                    assert(n[k] == old_out[k - 1]);
                }
            }
            assert forall|a: int, b: int| 0 <= a < b < i + 1 implies p[a] != p[b] by {
                let a2 = if a < pos { a } else { a - 1 };
                let b2 = if b < pos { b } else { b - 1 };
                if a != pos && b != pos {
                    assert(p[a] == old_p[a2]);
                    assert(p[b] == old_p[b2]);
                } else if a == pos {
                    assert(p[b] == old_p[b2]);
                } else {
                    assert(p[a] == old_p[a2]);
                }
            }
            assert forall|a: int, b: int|
                0 <= a < b < i + 1 && !goes_before(n[a], n[b], by, dir) && !goes_before(n[b], n[a], by, dir)
                    implies p[a] < p[b] by {
                if a != pos && b != pos {
                    let a2 = if a < pos { a } else { a - 1 };
                    let b2 = if b < pos { b } else { b - 1 };
                    assert(p[a] == old_p[a2]);
                    assert(p[b] == old_p[b2]);
                    assert(n[a] == old_out[a2]);
                    assert(n[b] == old_out[b2]);
                } else if a == pos {
                    assert(n[b] == old_out[b - 1]);
                } else {
                    assert(p[a] == old_p[a]);
                }
            }
        }
        i += 1;
    }
    proof {
        assert(stable_placement(s, out@, p, by, dir));
    }
    *files = out;
}

} // verus!
