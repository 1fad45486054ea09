//! Relative keys and local paths.
//!
//! A relative key is a file's path below the mirror root with `/` between
//! its parts (`docs/report.pdf`). Paths are Unix paths held as strings, and
//! these functions treat them the way `std::path::Path` does: by components.

use vstd::prelude::*;
use crate::error::Error;
use crate::text::{
    chars_of, concat_chars, last_index_of, lemma_last_index_of, owned, push_char, push_str, rfind_char, starts_with, str_starts_with,
    string_of, sub_chars,
};

verus! {

/// Reading `s` from the left and cutting at every `c`: the pieces finished
/// so far and the piece being read.
pub open spec fn split_state(s: Seq<char>, c: char) -> (Seq<Seq<char>>, Seq<char>)
    decreases s.len(),
{
    if s.len() == 0 {
        (Seq::empty(), Seq::empty())
    } else {
        let (done, cur) = split_state(s.drop_last(), c);
        if s.last() == c {
            (done.push(cur), Seq::empty())
        } else {
            (done, cur.push(s.last()))
        }
    }
}

/// `s` cut at every `c`, as `str::split` cuts it (empty pieces included).
pub open spec fn split_on(s: Seq<char>, c: char) -> Seq<Seq<char>> {
    split_state(s, c).0.push(split_state(s, c).1)
}

/// Pieces joined with `/` between them.
pub open spec fn join_parts(parts: Seq<Seq<char>>) -> Seq<char>
    decreases parts.len(),
{
    if parts.len() == 0 {
        Seq::empty()
    } else if parts.len() == 1 {
        parts[0]
    } else {
        join_parts(parts.drop_last()) + "/"@ + parts.last()
    }
}

/// The pieces of a path that name something (not empty, not `.`).
pub open spec fn named_parts(parts: Seq<Seq<char>>) -> Seq<Seq<char>>
    decreases parts.len(),
{
    if parts.len() == 0 {
        Seq::empty()
    } else if parts.last().len() > 0 && parts.last() != "."@ {
        named_parts(parts.drop_last()).push(parts.last())
    } else {
        named_parts(parts.drop_last())
    }
}

/// The components of a Unix path, as `Path::components` yields them: a
/// leading `/` for an absolute path, a leading `.` for a path that starts
/// with `./`, then every part that is neither empty nor `.`.
pub open spec fn path_components(p: Seq<char>) -> Seq<Seq<char>> {
    let head: Seq<Seq<char>> = if p.len() > 0 && p[0] == '/' {
        seq!["/"@]
    } else if p == "."@ || starts_with(p, "./"@) {
        seq!["."@]
    } else {
        Seq::empty()
    };
    head + named_parts(split_on(p, '/'))
}

/// `PathBuf::push` of a relative part: a separator goes between unless the
/// path is empty or already ends in one; an absolute part replaces the path.
pub open spec fn path_push(p: Seq<char>, part: Seq<char>) -> Seq<char> {
    if part.len() > 0 && part[0] == '/' {
        part
    } else if p.len() > 0 && p.last() != '/' {
        p + "/"@ + part
    } else {
        p + part
    }
}

/// Pushing each part in order onto `p`.
pub open spec fn push_parts(p: Seq<char>, parts: Seq<Seq<char>>) -> Seq<char>
    decreases parts.len(),
{
    if parts.len() == 0 {
        p
    } else {
        path_push(push_parts(p, parts.drop_last()), parts.last())
    }
}

/// The local path of `key` under `root`.
pub open spec fn spec_local_for_key(root: Seq<char>, key: Seq<char>) -> Seq<char> {
    push_parts(root, split_on(key, '/'))
}

/// The key of `path` below `root`, if `path` lies below `root`.
pub open spec fn spec_key_for_local(root: Seq<char>, path: Seq<char>) -> Option<Seq<char>> {
    let rc = path_components(root);
    let pc = path_components(path);
    if rc.len() <= pc.len() && pc.take(rc.len() as int) == rc {
        Some(join_parts(pc.skip(rc.len() as int)))
    } else {
        None
    }
}

fn split_parts(v: &Vec<char>, c: char) -> (r: Vec<Vec<char>>)
    ensures
        r@.len() == split_on(v@, c).len(),
        forall|i: int| 0 <= i < r@.len() ==> #[trigger] r@[i]@ == split_on(v@, c)[i],
{
    let mut done: Vec<Vec<char>> = Vec::new();
    let mut cur: Vec<char> = Vec::new();
    let mut i: usize = 0;
    while i < v.len()
        invariant
            i <= v@.len(),
            done@.len() == split_state(v@.take(i as int), c).0.len(),
            forall|k: int|
                0 <= k < done@.len() ==> #[trigger] done@[k]@ == split_state(v@.take(i as int), c).0[k],
            cur@ == split_state(v@.take(i as int), c).1,
        decreases v@.len() - i,
    {
        assert(v@.take(i + 1).drop_last() =~= v@.take(i as int));
        if v[i] == c {
            let piece = cur;
            done.push(piece);
            cur = Vec::new();
        } else {
            cur.push(v[i]);
        }
        i += 1;
    }
    assert(v@.take(v@.len() as int) =~= v@);
    done.push(cur);
    done
}

fn is_dot(f: &Vec<char>) -> (r: bool)
    ensures
        r == (f@ == "."@),
{
    proof {
        reveal_strlit(".");
    }
    if f.len() == 1 && f[0] == '.' {
        assert(f@ =~= "."@);
        true
    } else {
        false
    }
}

fn components_of(p: &Vec<char>) -> (r: Vec<Vec<char>>)
    ensures
        r@.len() == path_components(p@).len(),
        forall|i: int| 0 <= i < r@.len() ==> #[trigger] r@[i]@ == path_components(p@)[i],
{
    proof {
        reveal_strlit("/");
        reveal_strlit(".");
        reveal_strlit("./");
    }
    let mut out: Vec<Vec<char>> = Vec::new();
    let ghost head: Seq<Seq<char>> = if p@.len() > 0 && p@[0] == '/' {
        seq!["/"@]
    } else if p@ == "."@ || starts_with(p@, "./"@) {
        seq!["."@]
    } else {
        Seq::empty()
    };
    if p.len() > 0 && p[0] == '/' {
        out.push(chars_of("/"));
    } else if (p.len() == 1 && p[0] == '.') || (p.len() >= 2 && p[0] == '.' && p[1] == '/') {
        proof {
            if p@.len() == 1 {
                assert(p@ =~= "."@);
            } else {
                assert(p@.take(2) =~= "./"@);
            }
        }
        out.push(chars_of("."));
    } else {
        proof {
            if p@ == "."@ {
                assert(p@[0] == '.');
            }
            if starts_with(p@, "./"@) {
                assert(p@.take(2)[0] == '.');
                assert(p@.take(2)[1] == '/');
            }
        }
    }
    assert(out@.len() == head.len());
    let parts = split_parts(p, '/');
    let ghost all = split_on(p@, '/');
    let ghost n0 = out@.len();
    let mut i: usize = 0;
    while i < parts.len()
        invariant
            i <= parts@.len(),
            parts@.len() == all.len(),
            forall|k: int| 0 <= k < parts@.len() ==> #[trigger] parts@[k]@ == all[k],
            n0 == head.len(),
            out@.len() == n0 + named_parts(all.take(i as int)).len(),
            forall|k: int| 0 <= k < n0 ==> #[trigger] out@[k]@ == head[k],
            forall|k: int|
                n0 <= k < out@.len() ==> #[trigger] out@[k]@ == named_parts(all.take(i as int))[k
                    - n0],
        decreases parts@.len() - i,
    {
        assert(all.take(i + 1).drop_last() =~= all.take(i as int));
        let keep = parts[i].len() > 0 && !is_dot(&parts[i]);
        if keep {
            let piece = sub_chars(parts[i].as_slice(), 0, parts[i].len());
            assert(piece@ =~= parts@[i as int]@);
            out.push(piece);
        }
        i += 1;
    }
    assert(all.take(all.len() as int) =~= all);
    out
}

fn join_with_slash(parts: &Vec<Vec<char>>, from: usize) -> (r: String)
    requires
        from <= parts@.len(),
    ensures
        r@ == join_parts(parts@.skip(from as int).map_values(|x: Vec<char>| x@)),
{
    let ghost ps = parts@.skip(from as int).map_values(|x: Vec<char>| x@);
    let mut out = String::new();
    let mut i = from;
    while i < parts.len()
        invariant
            from <= i <= parts@.len(),
            ps == parts@.skip(from as int).map_values(|x: Vec<char>| x@),
            out@ == join_parts(ps.take(i - from)),
        decreases parts@.len() - i,
    {
        assert(ps.take(i + 1 - from).drop_last() =~= ps.take(i - from));
        if i > from {
            push_char(&mut out, '/');
        }
        let piece = string_of(parts[i].as_slice());
        push_str(&mut out, piece.as_str());
        proof {
            reveal_strlit("/");
            assert(ps.take(i + 1 - from).last() == parts@[i as int]@);
            if i > from {
                assert(out@ =~= join_parts(ps.take(i - from)) + "/"@ + parts@[i as int]@);
            } else {
                assert(out@ =~= parts@[i as int]@);
            }
        }
        i += 1;
    }
    assert(ps.take(parts@.len() - from) =~= ps);
    out
}

/// Convert a local path to its relative key (relative to `local_root`, with
/// `/` separators).
pub fn key_for_local(local_root: &str, local_path: &str) -> (r: Result<String, Error>)
    ensures
        match r {
            Ok(k) => spec_key_for_local(local_root@, local_path@) == Some(k@),
            Err(e) => spec_key_for_local(local_root@, local_path@) is None && (e matches Error::Other(
                m,
            ) && m@ == "path outside mirror root"@),
        },
{
    let rc = components_of(&chars_of(local_root));
    let pc = components_of(&chars_of(local_path));
    let ghost rcs = path_components(local_root@);
    let ghost pcs = path_components(local_path@);
    if rc.len() > pc.len() {
        return Err(Error::other("path outside mirror root"));
    }
    let mut i: usize = 0;
    while i < rc.len()
        invariant
            rc@.len() <= pc@.len(),
            rcs == path_components(local_root@),
            pcs == path_components(local_path@),
            i <= rc@.len(),
            rc@.len() == rcs.len(),
            pc@.len() == pcs.len(),
            forall|k: int| 0 <= k < rc@.len() ==> #[trigger] rc@[k]@ == rcs[k],
            forall|k: int| 0 <= k < pc@.len() ==> #[trigger] pc@[k]@ == pcs[k],
            forall|k: int| 0 <= k < i ==> rcs[k] == pcs[k],
        decreases rc@.len() - i,
    {
        if !seq_eq(&rc[i], &pc[i]) {
            proof {
                assert(rcs[i as int] != pcs[i as int]);
                assert(pcs.take(rcs.len() as int)[i as int] != rcs[i as int]);
                assert(pcs.take(rcs.len() as int) != rcs);
            }
            return Err(Error::other("path outside mirror root"));
        }
        i += 1;
    }
    proof {
        assert(pcs.take(rcs.len() as int) =~= rcs);
        assert(pc@.skip(rc@.len() as int).map_values(|x: Vec<char>| x@) =~= pcs.skip(rcs.len() as int));
    }
    Ok(join_with_slash(&pc, rc.len()))
}

/// Convert a relative key to a local path under `local_root`.
pub fn local_for_key(local_root: &str, key: &str) -> (r: String)
    ensures
        r@ == spec_local_for_key(local_root@, key@),
{
    let parts = split_parts(&chars_of(key), '/');
    let ghost all = split_on(key@, '/');
    let mut p = owned(local_root);
    let mut i: usize = 0;
    while i < parts.len()
        invariant
            i <= parts@.len(),
            parts@.len() == all.len(),
            forall|k: int| 0 <= k < parts@.len() ==> #[trigger] parts@[k]@ == all[k],
            p@ == push_parts(local_root@, all.take(i as int)),
        decreases parts@.len() - i,
    {
        assert(all.take(i + 1).drop_last() =~= all.take(i as int));
        let part = &parts[i];
        let pv = chars_of(p.as_str());
        if part.len() > 0 && part[0] == '/' {
            p = string_of(part.as_slice());
        } else if pv.len() > 0 && pv[pv.len() - 1] != '/' {
            push_char(&mut p, '/');
            let ps = string_of(part.as_slice());
            push_str(&mut p, ps.as_str());
            proof {
                reveal_strlit("/");
                assert(p@ =~= pv@ + "/"@ + part@);
            }
        } else {
            let ps = string_of(part.as_slice());
            push_str(&mut p, ps.as_str());
        }
        i += 1;
    }
    assert(all.take(all.len() as int) =~= all);
    p
}

/// A key as `Path` reads it: trailing separators and trailing `.` parts
/// do not count (`docs/` and `docs/.` name `docs`).
pub open spec fn trim_tail(k: Seq<char>) -> Seq<char>
    decreases k.len(),
{
    if k.len() >= 2 && (k.last() == '/' || (k.last() == '.' && k[k.len() - 2] == '/')) {
        trim_tail(k.drop_last())
    } else {
        k
    }
}

/// What follows the last `/` of `t` (all of `t` without one).
pub open spec fn key_last(t: Seq<char>) -> Seq<char> {
    match last_index_of(t, '/') {
        Some(i) => t.skip(i + 1),
        None => t,
    }
}

/// The parent of a key, as `Path::parent` gives it: what comes before its
/// last part, read as a key in turn (empty for a one-part key); none for
/// the empty key and the root.
pub open spec fn key_parent(k: Seq<char>) -> Option<Seq<char>> {
    let t = trim_tail(k);
    if key_last(t).len() == 0 {
        None
    } else {
        match last_index_of(t, '/') {
            Some(i) => Some(trim_tail(t.take(i + 1))),
            None => Some(Seq::empty()),
        }
    }
}

/// The last part of a key, as `Path::file_name` gives it: none for the
/// empty key, the root, `.` and `..`.
pub open spec fn key_file_name(k: Seq<char>) -> Option<Seq<char>> {
    let f = key_last(trim_tail(k));
    if f.len() == 0 || f == ".."@ || f == "."@ {
        None
    } else {
        Some(f)
    }
}

/// `trim_tail` leaves nothing more to trim.
proof fn lemma_trim_tail_settled(k: Seq<char>)
    ensures
        trim_tail(trim_tail(k)) == trim_tail(k),
        !(trim_tail(k).len() >= 2 && (trim_tail(k).last() == '/' || (trim_tail(k).last() == '.'
            && trim_tail(k)[trim_tail(k).len() - 2] == '/'))),
    decreases k.len(),
{
    if k.len() >= 2 && (k.last() == '/' || (k.last() == '.' && k[k.len() - 2] == '/')) {
        lemma_trim_tail_settled(k.drop_last());
    }
}

/// A file name split at its last dot into stem and extension, as
/// `Path::file_stem` and `Path::extension` split it: a name without a dot,
/// or whose only dot leads, has no extension.
pub open spec fn split_ext(f: Seq<char>) -> (Seq<char>, Option<Seq<char>>) {
    match last_index_of(f, '.') {
        Some(d) => if d == 0 {
            (f, None)
        } else {
            (f.take(d), Some(f.skip(d + 1)))
        },
        None => (f, None),
    }
}

/// The name under which a conflicting local copy of `key` is kept:
/// `stem (conflict <ts>).ext` in the same directory.
pub open spec fn spec_conflict_key(key: Seq<char>, ts: Seq<char>) -> Seq<char> {
    let (stem, ext) = match key_file_name(key) {
        Some(f) => split_ext(f),
        None => ("file"@, None),
    };
    let name = stem + " (conflict "@ + ts + ")"@ + match ext {
        Some(e) => "."@ + e,
        None => Seq::empty(),
    };
    match key_parent(key) {
        Some(p) => if p.len() == 0 {
            name
        } else if p.last() == '/' {
            p + name
        } else {
            p + "/"@ + name
        },
        None => name,
    }
}

/// `k` is a conflict copy of `key`: same directory, and its name starts with
/// `<stem of key> (conflict `.
pub open spec fn is_conflict_sibling(key: Seq<char>, k: Seq<char>) -> bool {
    let stem = match key_file_name(key) {
        Some(f) => split_ext(f).0,
        None => Seq::empty(),
    };
    &&& key_parent(k) == key_parent(key)
    &&& key_file_name(k) matches Some(f) && starts_with(f, stem + " (conflict "@)
}

fn trim_tail_of(k: &Vec<char>) -> (r: Vec<char>)
    ensures
        r@ == trim_tail(k@),
{
    let mut n = k.len();
    assert(k@.take(n as int) =~= k@);
    while n >= 2 && (k[n - 1] == '/' || (k[n - 1] == '.' && k[n - 2] == '/'))
        invariant
            n <= k@.len(),
            trim_tail(k@.take(n as int)) == trim_tail(k@),
        decreases n,
    {
        assert(k@.take(n - 1) =~= k@.take(n as int).drop_last());
        n -= 1;
    }
    let r = sub_chars(k.as_slice(), 0, n);
    assert(r@ =~= k@.take(n as int));
    r
}

fn last_part(t: &Vec<char>) -> (r: Vec<char>)
    ensures
        r@ == key_last(t@),
{
    match rfind_char(t.as_slice(), '/') {
        Some(i) => {
            proof {
                lemma_last_index_of(t@, '/');
            }
            let n = t.len();
            let r = sub_chars(t.as_slice(), i + 1, n);
            assert(r@ =~= t@.skip(i + 1));
            r
        },
        None => {
            let r = sub_chars(t.as_slice(), 0, t.len());
            assert(r@ =~= t@);
            r
        },
    }
}

fn parent_of(k: &Vec<char>) -> (r: Option<Vec<char>>)
    ensures
        match r {
            Some(p) => key_parent(k@) == Some(p@),
            None => key_parent(k@) is None,
        },
{
    let t = trim_tail_of(k);
    let last = last_part(&t);
    if last.len() == 0 {
        return None;
    }
    match rfind_char(t.as_slice(), '/') {
        Some(i) => {
            proof {
                lemma_last_index_of(t@, '/');
            }
            let n = t.len();
            assert(i < n);
            let head = sub_chars(t.as_slice(), 0, i + 1);
            assert(head@ =~= t@.take(i + 1));
            Some(trim_tail_of(&head))
        },
        None => Some(Vec::new()),
    }
}

fn is_dot_dot(f: &Vec<char>) -> (r: bool)
    ensures
        r == (f@ == ".."@),
{
    let dd = chars_of("..");
    proof {
        reveal_strlit("..");
    }
    if f.len() == 2 && f[0] == '.' && f[1] == '.' {
        assert(f@ =~= dd@);
        true
    } else {
        false
    }
}

fn file_name_of(k: &Vec<char>) -> (r: Option<Vec<char>>)
    ensures
        match r {
            Some(f) => key_file_name(k@) == Some(f@),
            None => key_file_name(k@) is None,
        },
{
    let t = trim_tail_of(k);
    let f = last_part(&t);
    let is_dot = f.len() == 1 && f[0] == '.';
    proof {
        reveal_strlit(".");
        if f@ == "."@ {
            assert(f@[0] == "."@[0]);
        }
        if is_dot {
            assert(f@ =~= "."@);
        }
    }
    if f.len() == 0 || is_dot_dot(&f) || is_dot {
        None
    } else {
        Some(f)
    }
}

fn split_ext_of(f: &Vec<char>) -> (r: (Vec<char>, Option<Vec<char>>))
    ensures
        (r.0@, match r.1 {
            Some(e) => Some(e@),
            None => None,
        }) == split_ext(f@),
{
    match rfind_char(f.as_slice(), '.') {
        Some(d) => {
            proof {
                lemma_last_index_of(f@, '.');
            }
            if d == 0 {
                (sub_chars(f.as_slice(), 0, f.len()), None)
            } else {
                let n = f.len();
                assert(d < n);
                let e = sub_chars(f.as_slice(), d + 1, n);
                proof {
                    assert(f@.subrange(d + 1, f@.len() as int) =~= f@.skip(d + 1));
                    assert(f@.subrange(0, d as int) =~= f@.take(d as int));
                }
                (sub_chars(f.as_slice(), 0, d), Some(e))
            }
        },
        None => (sub_chars(f.as_slice(), 0, f.len()), None),
    }
}

/// Build the conflict-copy name for `key` with timestamp `ts`.
pub fn conflict_name(key: &str, ts: &str) -> (r: String)
    ensures
        r@ == spec_conflict_key(key@, ts@),
{
    let k = chars_of(key);
    let (stem, ext) = match file_name_of(&k) {
        Some(f) => split_ext_of(&f),
        None => (chars_of("file"), None),
    };
    let mut name = string_of(stem.as_slice());
    push_str(&mut name, " (conflict ");
    push_str(&mut name, ts);
    push_str(&mut name, ")");
    match &ext {
        Some(e) => {
            push_str(&mut name, ".");
            let es = string_of(e.as_slice());
            push_str(&mut name, es.as_str());
        },
        None => {},
    }
    proof {
        assert(k@.subrange(0, k@.len() as int) =~= k@);
    }
    let parent = parent_of(&k);
    match parent {
        Some(p) => {
            if p.len() == 0 {
                name
            } else if p[p.len() - 1] == '/' {
                let mut out = string_of(p.as_slice());
                push_str(&mut out, name.as_str());
                out
            } else {
                let mut out = string_of(p.as_slice());
                push_str(&mut out, "/");
                push_str(&mut out, name.as_str());
                out
            }
        },
        None => name,
    }
}

/// The instant `ms` milliseconds after the epoch in the local time zone,
/// formatted `%Y%m%d-%H%M%S` (`chrono::DateTime::<Utc>::from_timestamp_millis`,
/// `with_timezone(&Local)` and `format`); none where chrono cannot represent
/// the instant. Depends on the machine's time zone: nothing more is stated.
/// chrono panics here only when the zone data it loads from the environment
/// has no entry for the instant. The format has only numeric fields and
/// `-`, so the text holds no `/`.
#[verifier::external_body]
fn local_stamp(ms: u64) -> (r: Option<String>)
    ensures
        r matches Some(s) ==> free_of(s@, '/'),
{
    match chrono::DateTime::<chrono::Utc>::from_timestamp_millis(ms as i64) {
        Some(t) => Some(t.with_timezone(&chrono::Local).format("%Y%m%d-%H%M%S").to_string()),
        None => None,
    }
}

/// The local time now, formatted `%Y%m%d-%H%M%S`; a clock reading that
/// chrono cannot place is written as its milliseconds.
fn conflict_timestamp() -> (r: String)
    ensures
        free_of(r@, '/'),
{
    let ms = crate::engine::now_millis();
    match local_stamp(ms) {
        Some(s) => s,
        None => {
            proof {
                lemma_decimal_free_of_slash(ms as nat);
            }
            crate::text::decimal_string(ms)
        },
    }
}

/// Decimal digits hold no `/`.
proof fn lemma_decimal_free_of_slash(n: nat)
    ensures
        free_of(crate::text::decimal(n), '/'),
    decreases n,
{
    if n >= 10 {
        lemma_decimal_free_of_slash(n / 10);
        let d = crate::text::decimal(n);
        let h = crate::text::decimal(n / 10);
        assert forall|i: int| 0 <= i < d.len() implies d[i] != '/' by {
            if i < h.len() {
                assert(d[i] == h[i]);
            }
        }
    }
}

/// Build the conflict sibling name for `key`: keeps the directory and rewrites
/// the filename to `stem (conflict YYYYmmdd-HHMMSS).ext`, stamped with the
/// current local time (a stamp without `/`, so that the copy is found again
/// by [`law_conflict_copy_is_found`]).
pub fn conflict_key(key: &str) -> (r: String)
    ensures
        exists|ts: Seq<char>| free_of(ts, '/') && r@ == #[trigger] spec_conflict_key(key@, ts),
{
    let ts = conflict_timestamp();
    conflict_name(key, ts.as_str())
}

/// Whether `k` is a conflict copy of `key`.
pub fn conflict_sibling_of(key: &str, k: &str) -> (r: bool)
    ensures
        r == is_conflict_sibling(key@, k@),
{
    let kc = chars_of(key);
    let stem = match file_name_of(&kc) {
        Some(f) => split_ext_of(&f).0,
        None => Vec::new(),
    };
    let needle = concat_chars(stem.as_slice(), chars_of(" (conflict ").as_slice());
    let other = chars_of(k);
    let p1 = parent_of(&other);
    let p2 = parent_of(&kc);
    let same_parent = match (&p1, &p2) {
        (Some(a), Some(b)) => seq_eq(a, b),
        (None, None) => true,
        _ => false,
    };
    proof {
        if let (Some(a), Some(b)) = (&p1, &p2) {
            assert(same_parent == (a@ == b@));
        }
    }
    if !same_parent {
        return false;
    }
    match file_name_of(&other) {
        Some(f) => str_starts_with(f.as_slice(), needle.as_slice()),
        None => false,
    }
}

fn seq_eq(a: &Vec<char>, b: &Vec<char>) -> (r: bool)
    ensures
        r == (a@ == b@),
{
    if a.len() != b.len() {
        return false;
    }
    let mut i: usize = 0;
    while i < a.len()
        invariant
            a@.len() == b@.len(),
            i <= a@.len(),
            forall|k: int| 0 <= k < i ==> a@[k] == b@[k],
        decreases a@.len() - i,
    {
        if a[i] != b[i] {
            return false;
        }
        i += 1;
    }
    assert(a@ =~= b@);
    true
}

/// Find the conflict copy of `key` among `keys` (the saved local version
/// from a prior conflict): the first key in the same directory whose name
/// starts with `<stem> (conflict `.
pub fn find_conflict_sibling(keys: &Vec<String>, key: &str) -> (r: Option<String>)
    ensures
        match r {
            Some(k) => exists|i: int|
                0 <= i < keys@.len() && keys@[i]@ == k@ && is_conflict_sibling(key@, k@),
            None => forall|i: int|
                0 <= i < keys@.len() ==> !is_conflict_sibling(key@, #[trigger] keys@[i]@),
        },
{
    let mut i: usize = 0;
    while i < keys.len()
        invariant
            i <= keys@.len(),
            forall|j: int| 0 <= j < i ==> !is_conflict_sibling(key@, #[trigger] keys@[j]@),
        decreases keys@.len() - i,
    {
        if conflict_sibling_of(key, keys[i].as_str()) {
            return Some(keys[i].clone());
        }
        i += 1;
    }
    None
}

/// `t` holds no `c`.
pub open spec fn free_of(t: Seq<char>, c: char) -> bool {
    forall|i: int| 0 <= i < t.len() ==> t[i] != c
}

/// Appending text without `c` extends the piece being read.
proof fn lemma_split_state_append(s: Seq<char>, t: Seq<char>, c: char)
    requires
        free_of(t, c),
    ensures
        split_state(s + t, c) == (split_state(s, c).0, split_state(s, c).1 + t),
    decreases t.len(),
{
    if t.len() == 0 {
        assert(s + t =~= s);
        assert(split_state(s, c).1 + t =~= split_state(s, c).1);
    } else {
        let t0 = t.drop_last();
        assert(free_of(t0, c));
        lemma_split_state_append(s, t0, c);
        assert((s + t).drop_last() =~= s + t0);
        assert((s + t).last() == t.last());
        assert(split_state(s, c).1 + t0 + seq![t.last()] =~= split_state(s, c).1 + t);
        assert((split_state(s, c).1 + t0).push(t.last()) =~= split_state(s, c).1 + t);
    }
}

/// `s` and then `/`: the piece being read is finished.
proof fn lemma_split_on_slash(s: Seq<char>, t: Seq<char>)
    requires
        free_of(t, '/'),
    ensures
        split_on(s + "/"@ + t, '/') == split_on(s, '/').push(t),
        split_on(s + t, '/') == split_on(s, '/').drop_last().push(split_on(s, '/').last() + t),
{
    reveal_strlit("/");
    let st = split_state(s, '/');
    let s1 = s + "/"@;
    assert(s1.drop_last() =~= s);
    assert(s1.last() == '/');
    assert(split_state(s1, '/') == (st.0.push(st.1), Seq::<char>::empty()));
    lemma_split_state_append(s1, t, '/');
    assert(Seq::<char>::empty() + t =~= t);
    lemma_split_state_append(s, t, '/');
    assert(split_on(s, '/').drop_last() =~= st.0);
}

/// Joining the pieces of a cut gives back the text.
pub proof fn lemma_join_split(s: Seq<char>)
    ensures
        join_parts(split_on(s, '/')) == s,
    decreases s.len(),
{
    reveal_strlit("/");
    if s.len() == 0 {
        assert(split_on(s, '/') =~= seq![Seq::<char>::empty()]);
    } else {
        let p = s.drop_last();
        let x = s.last();
        lemma_join_split(p);
        let (done, cur) = split_state(p, '/');
        if x == '/' {
            // the pieces of `p`, then an empty piece
            assert(split_on(s, '/') =~= split_on(p, '/').push(Seq::<char>::empty()));
            assert(split_on(s, '/').drop_last() =~= split_on(p, '/'));
            assert(split_on(s, '/').len() >= 2);
            assert(join_parts(split_on(s, '/')) == join_parts(split_on(p, '/')) + "/"@ + Seq::<char>::empty());
            assert(s =~= p + "/"@);
        } else {
            assert(split_on(s, '/') =~= done.push(cur.push(x)));
            if done.len() == 0 {
                assert(split_on(p, '/') =~= seq![cur]);
                assert(p == cur);
                assert(s =~= cur.push(x));
            } else {
                assert(done.push(cur.push(x)).drop_last() =~= done);
                assert(done.push(cur).drop_last() =~= done);
                assert(join_parts(split_on(p, '/')) == join_parts(done) + "/"@ + cur);
                assert(s =~= p.push(x));
                assert(s =~= join_parts(done) + "/"@ + cur.push(x));
                assert(split_on(s, '/').drop_last() =~= done);
                assert(split_on(s, '/').len() >= 2);
            }
        }
    }
}

/// Every piece names something: not empty, not `.`.
pub open spec fn all_named(parts: Seq<Seq<char>>) -> bool {
    forall|i: int| 0 <= i < parts.len() ==> parts[i].len() > 0 && parts[i] != "."@
}

proof fn lemma_named_parts_all(parts: Seq<Seq<char>>)
    requires
        all_named(parts),
    ensures
        named_parts(parts) == parts,
    decreases parts.len(),
{
    if parts.len() > 0 {
        let p = parts.drop_last();
        assert(all_named(p)) by {
            assert forall|i: int| 0 <= i < p.len() implies p[i].len() > 0 && p[i] != "."@ by {
                assert(p[i] == parts[i]);
            }
        }
        lemma_named_parts_all(p);
        assert(parts.last() == parts[parts.len() - 1]);
        assert(p.push(parts.last()) =~= parts);
    }
}

proof fn lemma_named_parts_push(parts: Seq<Seq<char>>, x: Seq<char>)
    ensures
        named_parts(parts.push(x)) == if x.len() > 0 && x != "."@ {
            named_parts(parts).push(x)
        } else {
            named_parts(parts)
        },
{
    assert(parts.push(x).drop_last() =~= parts);
}

/// Pushing a named part that holds no `/` adds it as the last component.
proof fn lemma_components_push(p: Seq<char>, part: Seq<char>)
    requires
        part.len() > 0,
        part != "."@,
        free_of(part, '/'),
    ensures
        path_components(path_push(p, part)) == path_components(p).push(part),
{
    reveal_strlit("/");
    reveal_strlit(".");
    reveal_strlit("./");
    let q = path_push(p, part);
    assert(part[0] != '/');
    if p.len() > 0 && p.last() != '/' {
        assert(q == p + "/"@ + part);
        lemma_split_on_slash(p, part);
        lemma_named_parts_push(split_on(p, '/'), part);
        assert(q[0] == p[0]);
        // the leading part of the path is unchanged
        if p == "."@ {
            assert(q.take(2) =~= "./"@);
        } else if starts_with(p, "./"@) {
            assert(q.take(2) =~= p.take(2));
        } else {
            if starts_with(q, "./"@) {
                assert(q.take(2)[0] == '.');
                assert(q.take(2)[1] == '/');
                if p.len() == 1 {
                    assert(p =~= "."@);
                } else {
                    assert(p.take(2) =~= "./"@);
                }
            }
            assert(q != "."@) by {
                assert(q.len() >= 3);
            }
        }
    } else if p.len() > 0 {
        // `p` ends in `/`: its last piece is empty
        assert(q == p + part);
        lemma_split_on_slash(p, part);
        let sp = split_on(p, '/');
        assert(p.drop_last().push('/') =~= p);
        assert(split_state(p, '/').1 == Seq::<char>::empty());
        assert(sp.last() == Seq::<char>::empty());
        assert(sp.last() + part =~= part);
        assert(sp.drop_last().push(sp.last()) =~= sp);
        lemma_named_parts_push(sp.drop_last(), Seq::<char>::empty());
        lemma_named_parts_push(sp.drop_last(), part);
        assert(q[0] == p[0]);
        if p == "."@ {
            assert(p.last() == '.');
        }
        if starts_with(p, "./"@) {
            assert(q.take(2) =~= p.take(2));
        } else {
            if starts_with(q, "./"@) {
                assert(q.take(2)[0] == '.');
                assert(q.take(2)[1] == '/');
                if p.len() == 1 {
                    assert(p[0] == '/');
                } else {
                    assert(p.take(2) =~= "./"@);
                }
            }
        }
        assert(q != "."@) by {
            if q == "."@ {
                assert(q.len() == 1);
            }
        }
    } else {
        assert(q =~= part);
        assert(split_on(p, '/') =~= seq![Seq::<char>::empty()]);
        lemma_split_on_slash(p, part);
        assert(split_on(q, '/') =~= seq![part]);
        lemma_named_parts_push(Seq::<Seq<char>>::empty(), part);
        lemma_named_parts_push(Seq::<Seq<char>>::empty(), Seq::<char>::empty());
        assert(seq![part] =~= Seq::<Seq<char>>::empty().push(part));
        assert(seq![Seq::<char>::empty()] =~= Seq::<Seq<char>>::empty().push(Seq::<char>::empty()));
        if starts_with(q, "./"@) {
            assert(q.take(2)[1] == '/');
            assert(q[1] == '/');
        }
    }
}

proof fn lemma_components_push_parts(p: Seq<char>, parts: Seq<Seq<char>>)
    requires
        all_named(parts),
        forall|i: int| 0 <= i < parts.len() ==> free_of(#[trigger] parts[i], '/'),
    ensures
        path_components(push_parts(p, parts)) == path_components(p) + parts,
    decreases parts.len(),
{
    if parts.len() == 0 {
        assert(path_components(p) + parts =~= path_components(p));
    } else {
        let q = parts.drop_last();
        assert(all_named(q)) by {
            assert forall|i: int| 0 <= i < q.len() implies q[i].len() > 0 && q[i] != "."@ by {
                assert(q[i] == parts[i]);
            }
        }
        assert forall|i: int| 0 <= i < q.len() implies free_of(#[trigger] q[i], '/') by {
            assert(q[i] == parts[i]);
        }
        lemma_components_push_parts(p, q);
        assert(parts.last() == parts[parts.len() - 1]);
        lemma_components_push(push_parts(p, q), parts.last());
        assert((path_components(p) + q).push(parts.last()) =~= path_components(p) + parts);
    }
}

/// The pieces of a cut hold no `/`.
proof fn lemma_split_pieces_free(s: Seq<char>)
    ensures
        forall|i: int| 0 <= i < split_on(s, '/').len() ==> free_of(#[trigger] split_on(s, '/')[i], '/'),
    decreases s.len(),
{
    if s.len() > 0 {
        let p = s.drop_last();
        lemma_split_pieces_free(p);
        let (done, cur) = split_state(p, '/');
        assert(split_on(p, '/') == done.push(cur));
        assert forall|i: int| 0 <= i < done.len() implies free_of(#[trigger] done[i], '/') by {
            assert(split_on(p, '/')[i] == done[i]);
        }
        assert(free_of(cur, '/')) by {
            assert(split_on(p, '/')[done.len() as int] == cur);
        }
        if s.last() == '/' {
            assert(split_on(s, '/') =~= done.push(cur).push(Seq::<char>::empty()));
        } else {
            assert(split_on(s, '/') =~= done.push(cur.push(s.last())));
        }
    }
}

/// A key whose parts all name something (no empty part, no `.` part) is
/// found again from its local path: the key of the local path of `key` is
/// `key`, whatever the root.
pub proof fn law_key_path_round_trip(root: Seq<char>, key: Seq<char>)
    requires
        all_named(split_on(key, '/')),
    ensures
        spec_key_for_local(root, spec_local_for_key(root, key)) == Some(key),
{
    let parts = split_on(key, '/');
    lemma_split_pieces_free(key);
    lemma_components_push_parts(root, parts);
    let rc = path_components(root);
    let pc = path_components(spec_local_for_key(root, key));
    assert(pc == rc + parts);
    assert(pc.take(rc.len() as int) =~= rc);
    assert(pc.skip(rc.len() as int) =~= parts);
    lemma_join_split(key);
}

proof fn lemma_last_index_is(s: Seq<char>, c: char, i: int)
    requires
        0 <= i < s.len(),
        s[i] == c,
        forall|k: int| i < k < s.len() ==> s[k] != c,
    ensures
        last_index_of(s, c) == Some(i),
    decreases s.len(),
{
    if i < s.len() - 1 {
        let d = s.drop_last();
        assert forall|k: int| i < k < d.len() implies d[k] != c by {
            assert(d[k] == s[k]);
        }
        lemma_last_index_is(d, c, i);
    }
}

proof fn lemma_last_index_none(s: Seq<char>, c: char)
    requires
        free_of(s, c),
    ensures
        last_index_of(s, c) is None,
    decreases s.len(),
{
    if s.len() > 0 {
        let d = s.drop_last();
        assert(free_of(d, c)) by {
            assert forall|k: int| 0 <= k < d.len() implies d[k] != c by {
                assert(d[k] == s[k]);
            }
        }
        lemma_last_index_none(d, c);
        assert(s[s.len() - 1] != c);
    }
}

/// The conflict copy made for a key with a file name is found again as a
/// conflict copy of that key (the timestamp holds no `/`).
pub proof fn law_conflict_copy_is_found(key: Seq<char>, ts: Seq<char>)
    requires
        key_file_name(key) is Some,
        free_of(ts, '/'),
    ensures
        is_conflict_sibling(key, spec_conflict_key(key, ts)),
{
    reveal_strlit(" (conflict ");
    reveal_strlit(")");
    reveal_strlit(".");
    reveal_strlit("/");
    reveal_strlit("..");
    let t = trim_tail(key);
    lemma_last_index_of(t, '/');
    let f = key_file_name(key)->0;
    assert(free_of(f, '/')) by {
        match last_index_of(t, '/') {
            Some(i) => {
                assert forall|k: int| 0 <= k < f.len() implies f[k] != '/' by {
                    assert(f[k] == t[i + 1 + k]);
                }
            },
            None => {},
        }
    }
    lemma_last_index_of(f, '.');
    let (stem, ext) = split_ext(f);
    assert(free_of(stem, '/')) by {
        assert forall|k: int| 0 <= k < stem.len() implies stem[k] != '/' by {
            assert(stem[k] == f[k]);
        }
    }
    let tail: Seq<char> = match ext {
        Some(e) => "."@ + e,
        None => Seq::empty(),
    };
    assert(free_of(tail, '/')) by {
        if let Some(e) = ext {
            let d = last_index_of(f, '.')->0;
            assert forall|k: int| 0 <= k < tail.len() implies tail[k] != '/' by {
                if k > 0 {
                    assert(tail[k] == f[d + k]);
                }
            }
        }
    }
    let lead = stem + " (conflict "@;
    let name = lead + ts + ")"@ + tail;
    assert(free_of(name, '/')) by {
        assert forall|k: int| 0 <= k < name.len() implies name[k] != '/' by {
            if k < stem.len() {
                assert(name[k] == stem[k]);
            } else if k < lead.len() {
                assert(name[k] == " (conflict "@[k - stem.len()]);
            } else if k < lead.len() + ts.len() {
                assert(name[k] == ts[k - lead.len()]);
            } else if k == lead.len() + ts.len() {
            } else {
                assert(name[k] == tail[k - lead.len() - ts.len() - 1]);
            }
        }
    }
    assert(name.len() >= 11);
    assert(name.take(lead.len() as int) =~= lead);
    assert(name != ".."@);
    let p = key_parent(key)->0;
    let r = spec_conflict_key(key, ts);
    assert(starts_with(name, lead));
    assert(name.last() != '/' && name[name.len() - 2] != '/');
    assert(name != "."@);
    if p.len() == 0 {
        assert(r == name);
        assert(trim_tail(r) == r);
        lemma_last_index_none(name, '/');
        assert(p =~= Seq::<char>::empty());
        assert(key_parent(r) == Some(Seq::<char>::empty()));
        assert(key_file_name(r) == Some(name));
    } else {
        match last_index_of(t, '/') {
            Some(i) => {
                lemma_trim_tail_settled(t.take(i + 1));
            },
            None => {},
        }
        assert(trim_tail(p) == p);
        let j: int = if p.last() == '/' { p.len() - 1 } else { p.len() as int };
        assert(r.len() >= 2);
        assert(r.last() == name.last());
        assert(r[r.len() - 2] == name[name.len() - 2]);
        assert(trim_tail(r) == r);
        assert(r[j] == '/');
        assert forall|k: int| j < k < r.len() implies r[k] != '/' by {
            assert(r[k] == name[k - j - 1]);
        }
        lemma_last_index_is(r, '/', j);
        assert(r.skip(j + 1) =~= name);
        assert(key_file_name(r) == Some(name));
        if p.last() == '/' {
            assert(r.take(j + 1) =~= p);
        } else {
            assert(r.take(j + 1) =~= p.push('/'));
            assert(p.push('/').drop_last() =~= p);
            assert(trim_tail(p.push('/')) == trim_tail(p));
        }
        assert(key_parent(r) == Some(p));
    }
    assert(key_parent(r) == key_parent(key));
}

/// A conflict copy lies in the same folder as its key, and has a file name
/// that begins with the key's stem and ` (conflict `: a key in another
/// folder is never taken for one.
pub proof fn law_conflict_copy_in_same_folder(key: Seq<char>, k: Seq<char>)
    ensures
        is_conflict_sibling(key, k) ==> key_parent(k) == key_parent(key),
        key_parent(k) != key_parent(key) ==> !is_conflict_sibling(key, k),
        is_conflict_sibling(key, k) ==> key_file_name(k) is Some,
{
}

} // verus!
