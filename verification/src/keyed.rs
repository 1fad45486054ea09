//! String-keyed maps and sorted key lists.
//!
//! [`KeyedMap`] is an association list whose keys never repeat; its view is a
//! `Map` from the key's characters to the value. Sorted key lists are kept in
//! strictly increasing `str` order ([`key_lt`]).

use vstd::prelude::*;
use crate::text::{key_less, key_lt, lemma_key_lt_irreflexive, lemma_key_lt_total, lemma_key_lt_transitive, str_eq};

verus! {

/// The characters of each string in `s`.
pub open spec fn views(s: Seq<String>) -> Seq<Seq<char>> {
    s.map_values(|x: String| x@)
}

/// No two entries share a key.
pub open spec fn keys_unique<V>(s: Seq<(String, V)>) -> bool {
    forall|i: int, j: int|
        0 <= i < s.len() && 0 <= j < s.len() && i != j ==> s[i].0@ != s[j].0@
}

/// The map that inserting the pairs of `s` in order builds: a later pair for
/// a key replaces an earlier one.
pub open spec fn map_of<V>(s: Seq<(String, V)>) -> Map<Seq<char>, V>
    decreases s.len(),
{
    if s.len() == 0 {
        Map::empty()
    } else {
        map_of(s.drop_last()).insert(s.last().0@, s.last().1)
    }
}

/// The value stored under `k`, if any.
pub open spec fn lookup<V>(m: Map<Seq<char>, V>, k: Seq<char>) -> Option<V> {
    if m.dom().contains(k) {
        Some(m[k])
    } else {
        None
    }
}

/// Keys in strictly increasing `str` order (so, without repeats).
pub open spec fn strictly_sorted(s: Seq<Seq<char>>) -> bool {
    forall|i: int, j: int| 0 <= i < j < s.len() ==> key_lt(s[i], s[j])
}

/// The keys of `s`, in order.
pub open spec fn pair_keys<V>(s: Seq<(String, V)>) -> Seq<Seq<char>> {
    s.map_values(|p: (String, V)| p.0@)
}

pub proof fn lemma_map_of_dom<V>(s: Seq<(String, V)>, k: Seq<char>)
    ensures
        map_of(s).dom().contains(k) <==> exists|i: int| 0 <= i < s.len() && s[i].0@ == k,
    decreases s.len(),
{
    if s.len() > 0 {
        lemma_map_of_dom(s.drop_last(), k);
        if map_of(s).dom().contains(k) && k != s.last().0@ {
            let i = choose|i: int| 0 <= i < s.len() - 1 && s.drop_last()[i].0@ == k;
            assert(s[i].0@ == k);
        }
        if exists|i: int| 0 <= i < s.len() && s[i].0@ == k {
            let i = choose|i: int| 0 <= i < s.len() && s[i].0@ == k;
            if i < s.len() - 1 {
                assert(s.drop_last()[i].0@ == k);
            }
        }
    }
}

pub proof fn lemma_map_of_index<V>(s: Seq<(String, V)>, i: int)
    requires
        keys_unique(s),
        0 <= i < s.len(),
    ensures
        map_of(s).dom().contains(s[i].0@),
        map_of(s)[s[i].0@] == s[i].1,
    decreases s.len(),
{
    if i < s.len() - 1 {
        let p = s.drop_last();
        assert(keys_unique(p));
        assert(p[i] == s[i]);
        lemma_map_of_index(p, i);
        assert(s[i].0@ != s.last().0@);
    }
}

/// In a list sorted strictly, the key at each position is the list's only
/// occurrence of it.
pub proof fn lemma_sorted_unique(s: Seq<Seq<char>>, i: int, j: int)
    requires
        strictly_sorted(s),
        0 <= i < s.len(),
        0 <= j < s.len(),
        i != j,
    ensures
        s[i] != s[j],
{
    if i < j {
        lemma_key_lt_irreflexive(s[i]);
    } else {
        lemma_key_lt_irreflexive(s[j]);
    }
}

pub proof fn lemma_push_to_set<A>(s: Seq<A>, x: A)
    ensures
        s.push(x).to_set() == s.to_set().insert(x),
{
    assert forall|y: A| s.push(x).to_set().contains(y) <==> s.to_set().insert(x).contains(y) by {
        if s.push(x).to_set().contains(y) {
            let a = choose|a: int| 0 <= a < s.push(x).len() && s.push(x)[a] == y;
            if a < s.len() {
                assert(s[a] == y);
            }
        }
        if s.to_set().contains(y) {
            let a = choose|a: int| 0 <= a < s.len() && s[a] == y;
            assert(s.push(x)[a] == y);
        }
        if y == x {
            assert(s.push(x)[s.len() as int] == y);
        }
    }
    assert(s.push(x).to_set() =~= s.to_set().insert(x));
}

/// Finds the position of `key` among the keys of `entries`.
fn find_key<V>(entries: &Vec<(String, V)>, key: &str) -> (r: Option<usize>)
    ensures
        match r {
            Some(i) => i < entries@.len() && entries@[i as int].0@ == key@,
            None => forall|j: int| 0 <= j < entries@.len() ==> entries@[j].0@ != key@,
        },
{
    let mut i: usize = 0;
    while i < entries.len()
        invariant
            i <= entries@.len(),
            forall|j: int| 0 <= j < i ==> entries@[j].0@ != key@,
        decreases entries@.len() - i,
    {
        if str_eq(entries[i].0.as_str(), key) {
            return Some(i);
        }
        i += 1;
    }
    None
}

/// Inserts `key` into a strictly sorted list of keys, keeping it sorted;
/// a key already present is not inserted twice.
pub fn insert_sorted(v: &mut Vec<String>, key: String)
    requires
        strictly_sorted(views(old(v)@)),
    ensures
        strictly_sorted(views(final(v)@)),
        views(final(v)@).to_set() == views(old(v)@).to_set().insert(key@),
{
    let ghost old_v = views(v@);
    let mut i: usize = 0;
    while i < v.len() && key_less(v[i].as_str(), key.as_str())
        invariant
            i <= v@.len(),
            views(v@) == old_v,
            strictly_sorted(old_v),
            forall|j: int| 0 <= j < i ==> key_lt(#[trigger] old_v[j], key@),
        decreases v@.len() - i,
    {
        i += 1;
    }
    if i < v.len() && str_eq(v[i].as_str(), key.as_str()) {
        assert(old_v.to_set().insert(key@) =~= old_v.to_set()) by {
            assert(old_v[i as int] == key@);
        }
        return;
    }
    proof {
        if i < old_v.len() {
            lemma_key_lt_total(old_v[i as int], key@);
            assert(key_lt(key@, old_v[i as int]));
            assert forall|j: int| i <= j < old_v.len() implies key_lt(key@, #[trigger] old_v[j]) by {
                if j > i {
                    lemma_key_lt_transitive(key@, old_v[i as int], old_v[j]);
                }
            }
        }
    }
    v.insert(i, key);
    proof {
        let nv = views(v@);
        assert(nv =~= old_v.insert(i as int, key@));
        assert forall|a: int, b: int| 0 <= a < b < nv.len() implies key_lt(nv[a], nv[b]) by {
            if b < i {
            } else if b == i {
            } else if a < i {
                assert(nv[b] == old_v[b - 1]);
                lemma_key_lt_transitive(nv[a], key@, nv[b]);
            } else if a == i {
                assert(nv[b] == old_v[b - 1]);
            } else {
                assert(nv[a] == old_v[a - 1]);
                assert(nv[b] == old_v[b - 1]);
            }
        }
        assert forall|x: Seq<char>| nv.to_set().contains(x) <==> old_v.to_set().insert(key@).contains(x) by {
            if nv.to_set().contains(x) {
                let a = choose|a: int| 0 <= a < nv.len() && nv[a] == x;
                if a < i {
                    assert(old_v[a] == x);
                } else if a > i {
                    assert(old_v[a - 1] == x);
                }
            }
            if old_v.to_set().contains(x) {
                let a = choose|a: int| 0 <= a < old_v.len() && old_v[a] == x;
                if a < i {
                    assert(nv[a] == x);
                } else {
                    assert(nv[a + 1] == x);
                }
            }
            if x == key@ {
                assert(nv[i as int] == x);
            }
        }
        assert(nv.to_set() =~= old_v.to_set().insert(key@));
    }
}

/// Whether `key` is among `v`.
pub fn contains_str(v: &Vec<String>, key: &str) -> (r: bool)
    ensures
        r == views(v@).to_set().contains(key@),
{
    let mut i: usize = 0;
    while i < v.len()
        invariant
            i <= v@.len(),
            forall|j: int| 0 <= j < i ==> v@[j]@ != key@,
        decreases v@.len() - i,
    {
        if str_eq(v[i].as_str(), key) {
            assert(views(v@)[i as int] == key@);
            return true;
        }
        i += 1;
    }
    proof {
        if views(v@).to_set().contains(key@) {
            let j = choose|j: int| 0 <= j < views(v@).len() && views(v@)[j] == key@;
            assert(v@[j]@ == key@);
        }
    }
    false
}

/// A copy of `v`, string by string.
pub fn copy_strings(v: &Vec<String>) -> (r: Vec<String>)
    ensures
        views(r@) == views(v@),
{
    let mut out: Vec<String> = Vec::new();
    let mut i: usize = 0;
    while i < v.len()
        invariant
            i <= v@.len(),
            out@.len() == i,
            forall|j: int| 0 <= j < i ==> #[trigger] out@[j]@ == v@[j]@,
        decreases v@.len() - i,
    {
        out.push(v[i].clone());
        i += 1;
    }
    assert(views(out@) =~= views(v@));
    out
}

/// Removes `key` from a strictly sorted list of keys, if it is there.
pub fn remove_sorted(v: &mut Vec<String>, key: &str)
    requires
        strictly_sorted(views(old(v)@)),
    ensures
        strictly_sorted(views(final(v)@)),
        views(final(v)@).to_set() == views(old(v)@).to_set().remove(key@),
{
    let ghost old_v = views(v@);
    let mut i: usize = 0;
    while i < v.len()
        invariant
            i <= v@.len(),
            views(v@) == old_v,
            old_v == views(old(v)@),
            strictly_sorted(old_v),
            forall|j: int| 0 <= j < i ==> old_v[j] != key@,
        decreases v@.len() - i,
    {
        if str_eq(v[i].as_str(), key) {
            let _ = v.remove(i);
            proof {
                let nv = views(v@);
                assert(nv =~= old_v.remove(i as int));
                assert forall|a: int, b: int| 0 <= a < b < nv.len() implies key_lt(nv[a], nv[b]) by {
                    let a2 = if a < i { a } else { a + 1 };
                    let b2 = if b < i { b } else { b + 1 };
                    assert(nv[a] == old_v[a2]);
                    assert(nv[b] == old_v[b2]);
                }
                assert forall|x: Seq<char>| nv.to_set().contains(x) <==> old_v.to_set().remove(key@).contains(x) by {
                    if nv.to_set().contains(x) {
                        let a = choose|a: int| 0 <= a < nv.len() && nv[a] == x;
                        let a2 = if a < i { a } else { a + 1 };
                        assert(old_v[a2] == x);
                        lemma_sorted_unique(old_v, a2, i as int);
                    }
                    if old_v.to_set().contains(x) && x != key@ {
                        let a = choose|a: int| 0 <= a < old_v.len() && old_v[a] == x;
                        if a < i {
                            assert(nv[a] == x);
                        } else {
                            assert(a != i);
                            assert(nv[a - 1] == x);
                        }
                    }
                }
                assert(nv.to_set() =~= old_v.to_set().remove(key@));
            }
            return;
        }
        i += 1;
    }
    proof {
        assert(!old_v.to_set().contains(key@));
        assert(old_v.to_set().remove(key@) =~= old_v.to_set());
    }
}

/// Two lists sorted strictly that hold the same keys are the same list.
pub proof fn lemma_sorted_same_set(a: Seq<Seq<char>>, b: Seq<Seq<char>>)
    requires
        strictly_sorted(a),
        strictly_sorted(b),
        a.to_set() == b.to_set(),
    ensures
        a == b,
    decreases a.len(),
{
    if a.len() == 0 {
        if b.len() > 0 {
            assert(b.to_set().contains(b[0]));
        }
        assert(a =~= b);
    } else {
        assert(a.to_set().contains(a[0]));
        assert(b.len() > 0);
        assert(b.to_set().contains(b[0]));
        let j = choose|j: int| 0 <= j < b.len() && b[j] == a[0];
        let i = choose|i: int| 0 <= i < a.len() && a[i] == b[0];
        if j > 0 {
            // b[0] < b[j] == a[0], and a[0] <= a[i] == b[0]
            if i > 0 {
                lemma_key_lt_transitive(b[0], a[0], a[i]);
            }
            lemma_key_lt_irreflexive(b[0]);
        }
        assert(a[0] == b[0]);
        let a1 = a.drop_first();
        let b1 = b.drop_first();
        assert forall|x: Seq<char>| a1.to_set().contains(x) <==> b1.to_set().contains(x) by {
            if a1.to_set().contains(x) {
                let k = choose|k: int| 0 <= k < a1.len() && a1[k] == x;
                assert(a[k + 1] == x);
                assert(a.to_set().contains(x));
                let m = choose|m: int| 0 <= m < b.len() && b[m] == x;
                lemma_sorted_unique(a, 0, k + 1);
                assert(m != 0);
                assert(b1[m - 1] == x);
            }
            if b1.to_set().contains(x) {
                let k = choose|k: int| 0 <= k < b1.len() && b1[k] == x;
                assert(b[k + 1] == x);
                assert(b.to_set().contains(x));
                let m = choose|m: int| 0 <= m < a.len() && a[m] == x;
                lemma_sorted_unique(b, 0, k + 1);
                assert(m != 0);
                assert(a1[m - 1] == x);
            }
        }
        assert(a1.to_set() =~= b1.to_set());
        lemma_sorted_same_set(a1, b1);
        assert(a =~= b1.insert(0, b[0]));
        assert(b =~= b1.insert(0, b[0]));
    }
}

/// A map keyed by strings, held as an association list without repeated
/// keys.
pub struct KeyedMap<V> {
    entries: Vec<(String, V)>,
}

impl<V> View for KeyedMap<V> {
    type V = Map<Seq<char>, V>;

    closed spec fn view(&self) -> Map<Seq<char>, V> {
        map_of(self.entries@)
    }
}

impl<V> KeyedMap<V> {
    #[verifier::type_invariant]
    closed spec fn no_repeated_keys(self) -> bool {
        keys_unique(self.entries@)
    }

    /// The empty map.
    pub fn new() -> (m: Self)
        ensures
            m@ == Map::<Seq<char>, V>::empty(),
    {
        KeyedMap { entries: Vec::new() }
    }

    /// Number of keys.
    pub fn len(&self) -> (n: usize)
        ensures
            n == self@.dom().len(),
    {
        proof {
            use_type_invariant(self);
            self.lemma_len();
        }
        self.entries.len()
    }

    proof fn lemma_len(&self)
        requires
            keys_unique(self.entries@),
        ensures
            self@.dom().finite(),
            self@.dom().len() == self.entries@.len(),
    {
        lemma_map_of_len(self.entries@);
    }

    /// The value stored under `key`.
    pub fn get(&self, key: &str) -> (r: Option<&V>)
        ensures
            match r {
                Some(v) => self@.dom().contains(key@) && self@[key@] == *v,
                None => !self@.dom().contains(key@),
            },
    {
        proof {
            use_type_invariant(self);
        }
        match find_key(&self.entries, key) {
            Some(i) => {
                proof {
                    lemma_map_of_index(self.entries@, i as int);
                }
                Some(&self.entries[i].1)
            },
            None => {
                proof {
                    lemma_map_of_dom(self.entries@, key@);
                }
                None
            },
        }
    }

    /// Whether `key` has a value.
    pub fn contains_key(&self, key: &str) -> (r: bool)
        ensures
            r == self@.dom().contains(key@),
    {
        self.get(key).is_some()
    }

    /// Stores `value` under `key`, replacing any previous value.
    pub fn insert(&mut self, key: String, value: V)
        ensures
            final(self)@ == old(self)@.insert(key@, value),
    {
        proof {
            use_type_invariant(&*self);
        }
        let mut e: Vec<(String, V)> = Vec::new();
        std::mem::swap(&mut e, &mut self.entries);
        let ghost old_e = e@;
        match find_key(&e, key.as_str()) {
            Some(i) => {
                let _ = e.remove(i);
                proof {
                    lemma_map_of_remove(old_e, i as int);
                }
                let ghost mid = e@;
                e.push((key, value));
                proof {
                    assert(e@.drop_last() =~= mid);
                    assert(map_of(e@) == map_of(mid).insert(key@, value));
                    assert(map_of(e@) =~= map_of(old_e).insert(key@, value));
                }
            },
            None => {
                e.push((key, value));
                proof {
                    assert(e@.drop_last() =~= old_e);
                }
            },
        }
        self.entries = e;
    }

    /// Removes `key` and its value.
    pub fn remove(&mut self, key: &str)
        ensures
            final(self)@ == old(self)@.remove(key@),
    {
        proof {
            use_type_invariant(&*self);
        }
        let mut e: Vec<(String, V)> = Vec::new();
        std::mem::swap(&mut e, &mut self.entries);
        let ghost old_e = e@;
        match find_key(&e, key) {
            Some(i) => {
                let _ = e.remove(i);
                proof {
                    lemma_map_of_remove(old_e, i as int);
                }
            },
            None => {
                proof {
                    lemma_map_of_dom(old_e, key@);
                    assert(map_of(old_e).remove(key@) =~= map_of(old_e));
                }
            },
        }
        self.entries = e;
    }

    /// The keys, each once, in no particular order.
    pub fn keys(&self) -> (r: Vec<String>)
        ensures
            views(r@).to_set() == self@.dom(),
            views(r@).no_duplicates(),
    {
        proof {
            use_type_invariant(self);
        }
        let mut out: Vec<String> = Vec::new();
        let mut i: usize = 0;
        while i < self.entries.len()
            invariant
                i <= self.entries@.len(),
                keys_unique(self.entries@),
                out@.len() == i,
                forall|j: int| 0 <= j < i ==> #[trigger] out@[j]@ == self.entries@[j].0@,
            decreases self.entries@.len() - i,
        {
            out.push(self.entries[i].0.clone());
            i += 1;
        }
        proof {
            let vs = views(out@);
            assert forall|k: Seq<char>| vs.to_set().contains(k) <==> self@.dom().contains(k) by {
                lemma_map_of_dom(self.entries@, k);
                if vs.to_set().contains(k) {
                    let j = choose|j: int| 0 <= j < vs.len() && vs[j] == k;
                    assert(self.entries@[j].0@ == k);
                }
                if self@.dom().contains(k) {
                    let j = choose|j: int| 0 <= j < self.entries@.len() && self.entries@[j].0@ == k;
                    assert(vs[j] == k);
                }
            }
            assert(vs.to_set() =~= self@.dom());
        }
        out
    }
}

pub proof fn lemma_map_of_len<V>(s: Seq<(String, V)>)
    requires
        keys_unique(s),
    ensures
        map_of(s).dom().finite(),
        map_of(s).dom().len() == s.len(),
    decreases s.len(),
{
    if s.len() > 0 {
        let p = s.drop_last();
        assert(keys_unique(p));
        lemma_map_of_len(p);
        lemma_map_of_dom(p, s.last().0@);
        if map_of(p).dom().contains(s.last().0@) {
            let i = choose|i: int| 0 <= i < p.len() && p[i].0@ == s.last().0@;
            assert(s[i].0@ == s[s.len() - 1].0@);
        }
    }
}

/// Removing the entry at `i` removes its key from the map.
pub proof fn lemma_map_of_remove<V>(s: Seq<(String, V)>, i: int)
    requires
        keys_unique(s),
        0 <= i < s.len(),
    ensures
        keys_unique(s.remove(i)),
        map_of(s.remove(i)) == map_of(s).remove(s[i].0@),
{
    let t = s.remove(i);
    assert forall|a: int, b: int| 0 <= a < t.len() && 0 <= b < t.len() && a != b implies t[a].0@
        != t[b].0@ by {
        let a2 = if a < i { a } else { a + 1 };
        let b2 = if b < i { b } else { b + 1 };
        assert(t[a] == s[a2]);
        assert(t[b] == s[b2]);
    }
    let k = s[i].0@;
    assert forall|x: Seq<char>| map_of(t).dom().contains(x) <==> map_of(s).remove(k).dom().contains(x) by {
        lemma_map_of_dom(t, x);
        lemma_map_of_dom(s, x);
        if map_of(t).dom().contains(x) {
            let a = choose|a: int| 0 <= a < t.len() && t[a].0@ == x;
            let a2 = if a < i { a } else { a + 1 };
            assert(t[a] == s[a2]);
        }
        if map_of(s).dom().contains(x) && x != k {
            let a = choose|a: int| 0 <= a < s.len() && s[a].0@ == x;
            if a < i {
                assert(t[a] == s[a]);
            } else {
                assert(t[a - 1] == s[a]);
            }
        }
    }
    assert forall|x: Seq<char>| #[trigger] map_of(t).dom().contains(x) implies map_of(t)[x]
        == map_of(s)[x] by {
        lemma_map_of_dom(t, x);
        let a = choose|a: int| 0 <= a < t.len() && t[a].0@ == x;
        let a2 = if a < i { a } else { a + 1 };
        assert(t[a] == s[a2]);
        lemma_map_of_index(t, a);
        lemma_map_of_index(s, a2);
    }
    assert(map_of(t) =~= map_of(s).remove(k));
}

/// Builds a map from `pairs`, inserted in order: for a repeated key the last
/// pair wins.
pub fn map<V>(pairs: Vec<(String, V)>) -> (m: KeyedMap<V>)
    ensures
        m@ == map_of(pairs@),
{
    let mut m = KeyedMap::new();
    let ghost ps = pairs@;
    for p in it: pairs.into_iter()
        invariant
            it.seq() == ps,
            m@ == map_of(it.seq().take(it.index() as int)),
    {
        let ghost before = it.seq().take(it.index() as int);
        let (k, v) = p;
        m.insert(k, v);
        proof {
            assert(it.seq().take(it.index() + 1).drop_last() =~= before);
        }
    }
    assert(ps.take(ps.len() as int) =~= ps);
    m
}

/// Two strictly sorted keys lists: keys strictly sorted are unique.
pub proof fn lemma_sorted_keys_unique<V>(s: Seq<(String, V)>)
    requires
        strictly_sorted(pair_keys(s)),
    ensures
        keys_unique(s),
{
    assert forall|i: int, j: int| 0 <= i < s.len() && 0 <= j < s.len() && i != j implies s[i].0@ != s[j].0@ by {
        lemma_sorted_unique(pair_keys(s), i, j);
    }
}

/// Builds a map from `pairs`, inserted in order (for a repeated key the last
/// pair wins), as a list sorted strictly by key.
pub fn bmap<V>(pairs: Vec<(String, V)>) -> (r: Vec<(String, V)>)
    ensures
        strictly_sorted(pair_keys(r@)),
        map_of(r@) == map_of(pairs@),
{
    let mut out: Vec<(String, V)> = Vec::new();
    let ghost ps = pairs@;
    for p in it: pairs.into_iter()
        invariant
            it.seq() == ps,
            strictly_sorted(pair_keys(out@)),
            map_of(out@) == map_of(it.seq().take(it.index() as int)),
    {
        let ghost before = it.seq().take(it.index() as int);
        let ghost old_out = out@;
        let (k, v) = p;
        let ghost kv = k@;
        let ghost vv = v;
        proof {
            lemma_sorted_keys_unique(old_out);
        }
        let mut pos: usize = 0;
        while pos < out.len() && key_less(out[pos].0.as_str(), k.as_str())
            invariant
                pos <= out@.len(),
                out@ == old_out,
                k@ == kv,
                strictly_sorted(pair_keys(old_out)),
                forall|j: int| 0 <= j < pos ==> key_lt(#[trigger] old_out[j].0@, kv),
            decreases out@.len() - pos,
        {
            pos += 1;
        }
        if pos < out.len() && str_eq(out[pos].0.as_str(), k.as_str()) {
            out.set(pos, (k, v));
            proof {
                let n = out@;
                assert(n =~= old_out.update(pos as int, (n[pos as int].0, vv)));
                assert(pair_keys(n) =~= pair_keys(old_out).update(pos as int, kv));
                assert(pair_keys(n) =~= pair_keys(old_out));
                lemma_sorted_keys_unique(n);
                assert forall|x: Seq<char>| map_of(n).dom().contains(x) <==> map_of(old_out).insert(kv, vv).dom().contains(x) by {
                    lemma_map_of_dom(n, x);
                    lemma_map_of_dom(old_out, x);
                    if map_of(n).dom().contains(x) {
                        let a = choose|a: int| 0 <= a < n.len() && n[a].0@ == x;
                        if a != pos {
                            assert(old_out[a].0@ == x);
                        }
                    }
                    if map_of(old_out).dom().contains(x) {
                        let a = choose|a: int| 0 <= a < old_out.len() && old_out[a].0@ == x;
                        assert(pair_keys(n)[a] == x);
                        assert(n[a].0@ == x);
                    }
                    if x == kv {
                        assert(n[pos as int].0@ == x);
                    }
                }
                assert forall|x: Seq<char>| #[trigger] map_of(n).dom().contains(x) implies map_of(n)[x]
                    == map_of(old_out).insert(kv, vv)[x] by {
                    lemma_map_of_dom(n, x);
                    let a = choose|a: int| 0 <= a < n.len() && n[a].0@ == x;
                    lemma_map_of_index(n, a);
                    if a != pos {
                        lemma_map_of_index(old_out, a);
                        assert(old_out[a].0@ == x);
                        assert(x != kv) by {
                            lemma_sorted_unique(pair_keys(n), a, pos as int);
                        }
                    }
                }
                assert(map_of(n) =~= map_of(old_out).insert(kv, vv));
            }
        } else {
            proof {
                if pos < old_out.len() {
                    lemma_key_lt_total(old_out[pos as int].0@, kv);
                    assert(key_lt(kv, old_out[pos as int].0@));
                    assert forall|j: int| pos <= j < old_out.len() implies key_lt(kv, #[trigger] old_out[j].0@) by {
                        if j > pos {
                            assert(pair_keys(old_out)[pos as int] == old_out[pos as int].0@);
                            assert(pair_keys(old_out)[j] == old_out[j].0@);
                            lemma_key_lt_transitive(kv, old_out[pos as int].0@, old_out[j].0@);
                        }
                    }
                }
            }
            out.insert(pos, (k, v));
            proof {
                let n = out@;
                assert(n =~= old_out.insert(pos as int, (n[pos as int].0, vv)));
                let nk = pair_keys(n);
                assert(nk =~= pair_keys(old_out).insert(pos as int, kv));
                assert forall|a: int, b: int| 0 <= a < b < nk.len() implies key_lt(nk[a], nk[b]) by {
                    if b < pos {
                        assert(nk[a] == pair_keys(old_out)[a]);
                        assert(nk[b] == pair_keys(old_out)[b]);
                    } else if b == pos {
                        assert(nk[a] == old_out[a].0@);
                    } else if a < pos {
                        assert(nk[a] == old_out[a].0@);
                        assert(nk[b] == old_out[b - 1].0@);
                        lemma_key_lt_transitive(nk[a], kv, nk[b]);
                    } else if a == pos {
                        assert(nk[b] == old_out[b - 1].0@);
                    } else {
                        assert(nk[a] == pair_keys(old_out)[a - 1]);
                        assert(nk[b] == pair_keys(old_out)[b - 1]);
                    }
                }
                lemma_sorted_keys_unique(n);
                assert(!map_of(old_out).dom().contains(kv)) by {
                    lemma_map_of_dom(old_out, kv);
                    if map_of(old_out).dom().contains(kv) {
                        let a = choose|a: int| 0 <= a < old_out.len() && old_out[a].0@ == kv;
                        if a < pos {
                            lemma_key_lt_irreflexive(kv);
                        } else {
                            lemma_key_lt_irreflexive(kv);
                        }
                    }
                }
                assert forall|x: Seq<char>| map_of(n).dom().contains(x) <==> map_of(old_out).insert(kv, vv).dom().contains(x) by {
                    lemma_map_of_dom(n, x);
                    lemma_map_of_dom(old_out, x);
                    if map_of(n).dom().contains(x) {
                        let a = choose|a: int| 0 <= a < n.len() && n[a].0@ == x;
                        if a < pos {
                            assert(old_out[a].0@ == x);
                        } else if a > pos {
                            assert(old_out[a - 1].0@ == x);
                        }
                    }
                    if map_of(old_out).dom().contains(x) {
                        let a = choose|a: int| 0 <= a < old_out.len() && old_out[a].0@ == x;
                        if a < pos {
                            assert(n[a].0@ == x);
                        } else {
                            assert(n[a + 1].0@ == x);
                        }
                    }
                    if x == kv {
                        assert(n[pos as int].0@ == x);
                    }
                }
                assert forall|x: Seq<char>| #[trigger] map_of(n).dom().contains(x) implies map_of(n)[x]
                    == map_of(old_out).insert(kv, vv)[x] by {
                    lemma_map_of_dom(n, x);
                    let a = choose|a: int| 0 <= a < n.len() && n[a].0@ == x;
                    lemma_map_of_index(n, a);
                    if a < pos {
                        lemma_map_of_index(old_out, a);
                        assert(x != kv) by {
                            lemma_sorted_unique(nk, a, pos as int);
                        }
                    } else if a > pos {
                        lemma_map_of_index(old_out, a - 1);
                        assert(n[a] == old_out[a - 1]);
                        assert(x != kv) by {
                            lemma_sorted_unique(nk, a, pos as int);
                        }
                    }
                }
                assert(map_of(n) =~= map_of(old_out).insert(kv, vv));
            }
        }
        proof {
            assert(it.seq().take(it.index() + 1).drop_last() =~= before);
            assert(it.seq().take(it.index() + 1).last() == (k, vv));
        }
    }
    assert(ps.take(ps.len() as int) =~= ps);
    out
}

} // verus!
