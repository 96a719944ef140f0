use vstd::prelude::*;

verus! {

// ---------------------------------------------------------------------------
// Association lists: tables kept in insertion order, keyed once each
// ---------------------------------------------------------------------------

/// Some entry of `s` has key `k`.
pub open spec fn has_key<K, V>(s: Seq<(K, V)>, k: K) -> bool {
    exists|i: int| 0 <= i < s.len() && #[trigger] s[i].0 == k
}

/// No two entries of `s` share a key.
pub open spec fn keys_unique<K, V>(s: Seq<(K, V)>) -> bool {
    forall|i: int, j: int|
        0 <= i < s.len() && 0 <= j < s.len() && #[trigger] s[i].0 == #[trigger] s[j].0 ==> i == j
}

/// The position of the entry with key `k` (meaningful where `has_key(s, k)`).
pub open spec fn key_index<K, V>(s: Seq<(K, V)>, k: K) -> int {
    choose|i: int| 0 <= i < s.len() && #[trigger] s[i].0 == k
}

/// The value stored under `k`, if any.
pub open spec fn value_of<K, V>(s: Seq<(K, V)>, k: K) -> Option<V> {
    if has_key(s, k) {
        Some(s[key_index(s, k)].1)
    } else {
        None
    }
}

/// `s` with `k` bound to `v`: the entry is replaced in place, or appended.
pub open spec fn upsert<K, V>(s: Seq<(K, V)>, k: K, v: V) -> Seq<(K, V)> {
    if has_key(s, k) {
        s.update(key_index(s, k), (k, v))
    } else {
        s.push((k, v))
    }
}

/// `m` with `x` added, as a set kept in insertion order.
pub open spec fn set_insert<T>(m: Seq<T>, x: T) -> Seq<T> {
    if m.contains(x) {
        m
    } else {
        m.push(x)
    }
}

/// The set stored under `k`, empty where there is none.
pub open spec fn set_of<K, T>(s: Seq<(K, Seq<T>)>, k: K) -> Seq<T> {
    match value_of(s, k) {
        Some(m) => m,
        None => Seq::empty(),
    }
}

/// `s` with `x` added to the set under `k`, a new entry being appended where
/// there is none.
pub open spec fn entry_insert<K, T>(s: Seq<(K, Seq<T>)>, k: K, x: T) -> Seq<(K, Seq<T>)> {
    if has_key(s, k) {
        let i = key_index(s, k);
        s.update(i, (k, set_insert(s[i].1, x)))
    } else {
        s.push((k, seq![x]))
    }
}

/// `s` with `x` taken out of the set under `k`; the entry stays, maybe empty.
pub open spec fn entry_remove<K, T>(s: Seq<(K, Seq<T>)>, k: K, x: T) -> Seq<(K, Seq<T>)> {
    if has_key(s, k) {
        let i = key_index(s, k);
        s.update(i, (k, s[i].1.filter(|y: T| y != x)))
    } else {
        s
    }
}

/// Keys unique, and no set holds an element twice.
pub open spec fn sets_wf<K, T>(s: Seq<(K, Seq<T>)>) -> bool {
    &&& keys_unique(s)
    &&& forall|i: int| 0 <= i < s.len() ==> (#[trigger] s[i]).1.no_duplicates()
}

/// A list of names, each taken as its characters.
pub open spec fn names_view(v: Seq<String>) -> Seq<Seq<char>> {
    v.map_values(|u: String| u@)
}

pub(crate) proof fn lemma_key_index<K, V>(s: Seq<(K, V)>, k: K, i: int)
    requires
        keys_unique(s),
        0 <= i < s.len(),
        s[i].0 == k,
    ensures
        has_key(s, k),
        key_index(s, k) == i,
        value_of(s, k) == Some(s[i].1),
{
    assert(has_key(s, k));
    let j = key_index(s, k);
    assert(s[j].0 == s[i].0);
}

pub(crate) proof fn lemma_upsert_unique<K, V>(s: Seq<(K, V)>, k: K, v: V)
    requires
        keys_unique(s),
    ensures
        keys_unique(upsert(s, k, v)),
        has_key(upsert(s, k, v), k),
        value_of(upsert(s, k, v), k) == Some(v),
{
    let t = upsert(s, k, v);
    if has_key(s, k) {
        let i = key_index(s, k);
        assert forall|a: int, b: int|
            0 <= a < t.len() && 0 <= b < t.len() && #[trigger] t[a].0 == #[trigger] t[b].0 implies a
            == b by {
            assert(t[a].0 == s[a].0);
            assert(t[b].0 == s[b].0);
        }
        lemma_key_index(t, k, i);
    } else {
        assert forall|a: int, b: int|
            0 <= a < t.len() && 0 <= b < t.len() && #[trigger] t[a].0 == #[trigger] t[b].0 implies a
            == b by {
            if a < s.len() && b < s.len() {
                assert(t[a].0 == s[a].0);
                assert(t[b].0 == s[b].0);
            } else if a < s.len() {
                assert(s[a].0 == k);
            } else if b < s.len() {
                assert(s[b].0 == k);
            }
        }
        lemma_key_index(t, k, s.len() as int);
    }
}

/// The test that keeps every element but `x`.
pub open spec fn differs<T>(x: T) -> spec_fn(T) -> bool {
    |y: T| y != x
}

pub(crate) proof fn lemma_filter_no_dup<T>(s: Seq<T>, p: spec_fn(T) -> bool)
    requires
        s.no_duplicates(),
    ensures
        s.filter(p).no_duplicates(),
    decreases s.len(),
{
    reveal(Seq::filter);
    if s.len() > 0 {
        let d = s.drop_last();
        assert(d.no_duplicates());
        lemma_filter_no_dup(d, p);
        let f = d.filter(p);
        if p(s.last()) && f.contains(s.last()) {
            d.lemma_filter_contains_rev(p, s.last());
            let k = choose|k: int| 0 <= k < d.len() && d[k] == s.last();
            assert(s[k] == s[s.len() - 1]);
        }
    }
}

pub(crate) proof fn lemma_set_insert_no_dup<T>(m: Seq<T>, x: T)
    requires
        m.no_duplicates(),
    ensures
        set_insert(m, x).no_duplicates(),
        set_insert(m, x).contains(x),
{
    if !m.contains(x) {
        assert(m.push(x)[m.len() as int] == x);
    }
}

pub(crate) proof fn lemma_entry_insert_wf<K, T>(s: Seq<(K, Seq<T>)>, k: K, x: T)
    requires
        sets_wf(s),
    ensures
        sets_wf(entry_insert(s, k, x)),
        has_key(entry_insert(s, k, x), k),
        set_of(entry_insert(s, k, x), k) == set_insert(set_of(s, k), x),
        forall|k2: K| k2 != k ==> set_of(entry_insert(s, k, x), k2) == set_of(s, k2),
{
    let t = entry_insert(s, k, x);
    if has_key(s, k) {
        let i = key_index(s, k);
        lemma_key_index(s, k, i);
        lemma_set_insert_no_dup(s[i].1, x);
        assert forall|a: int, b: int|
            0 <= a < t.len() && 0 <= b < t.len() && #[trigger] t[a].0 == #[trigger] t[b].0 implies a
            == b by {
            assert(t[a].0 == s[a].0);
            assert(t[b].0 == s[b].0);
        }
        assert forall|a: int| 0 <= a < t.len() implies (#[trigger] t[a]).1.no_duplicates() by {
            if a != i {
                assert(t[a] == s[a]);
            }
        }
        lemma_key_index(t, k, i);
        assert forall|k2: K| k2 != k implies set_of(t, k2) == set_of(s, k2) by {
            if has_key(s, k2) {
                let j = key_index(s, k2);
                lemma_key_index(t, k2, j);
            } else if has_key(t, k2) {
                let j = key_index(t, k2);
                assert(s[j].0 == k2);
            }
        }
    } else {
        assert forall|a: int, b: int|
            0 <= a < t.len() && 0 <= b < t.len() && #[trigger] t[a].0 == #[trigger] t[b].0 implies a
            == b by {
            if a < s.len() && b < s.len() {
                assert(t[a].0 == s[a].0);
                assert(t[b].0 == s[b].0);
            } else if a < s.len() {
                assert(s[a].0 == k);
            } else if b < s.len() {
                assert(s[b].0 == k);
            }
        }
        assert forall|a: int| 0 <= a < t.len() implies (#[trigger] t[a]).1.no_duplicates() by {
            if a < s.len() {
                assert(t[a] == s[a]);
            }
        }
        lemma_key_index(t, k, s.len() as int);
        assert(set_insert(Seq::<T>::empty(), x) =~= seq![x]);
        assert forall|k2: K| k2 != k implies set_of(t, k2) == set_of(s, k2) by {
            if has_key(s, k2) {
                let j = key_index(s, k2);
                lemma_key_index(t, k2, j);
            } else if has_key(t, k2) {
                let j = key_index(t, k2);
                if j < s.len() {
                    assert(s[j].0 == k2);
                }
            }
        }
    }
}

pub(crate) proof fn lemma_entry_remove_wf<K, T>(s: Seq<(K, Seq<T>)>, k: K, x: T)
    requires
        sets_wf(s),
    ensures
        sets_wf(entry_remove(s, k, x)),
        set_of(entry_remove(s, k, x), k) == set_of(s, k).filter(differs(x)),
        forall|k2: K| k2 != k ==> set_of(entry_remove(s, k, x), k2) == set_of(s, k2),
{
    let t = entry_remove(s, k, x);
    if has_key(s, k) {
        let i = key_index(s, k);
        lemma_key_index(s, k, i);
        lemma_filter_no_dup(s[i].1, differs(x));
        assert forall|a: int, b: int|
            0 <= a < t.len() && 0 <= b < t.len() && #[trigger] t[a].0 == #[trigger] t[b].0 implies a
            == b by {
            assert(t[a].0 == s[a].0);
            assert(t[b].0 == s[b].0);
        }
        assert forall|a: int| 0 <= a < t.len() implies (#[trigger] t[a]).1.no_duplicates() by {
            if a != i {
                assert(t[a] == s[a]);
            }
        }
        lemma_key_index(t, k, i);
        assert forall|k2: K| k2 != k implies set_of(t, k2) == set_of(s, k2) by {
            if has_key(s, k2) {
                let j = key_index(s, k2);
                lemma_key_index(t, k2, j);
            } else if has_key(t, k2) {
                let j = key_index(t, k2);
                assert(s[j].0 == k2);
            }
        }
    } else {
        reveal(Seq::filter);
    }
}

/// Whether `m` holds `c`.
pub(crate) fn contains_conn(m: &Vec<u64>, c: u64) -> (b: bool)
    ensures
        b == m@.contains(c),
{
    let mut j: usize = 0;
    while j < m.len()
        invariant
            j <= m@.len(),
            forall|k: int| 0 <= k < j ==> m@[k] != c,
        decreases m@.len() - j,
    {
        if m[j] == c {
            return true;
        }
        j = j + 1;
    }
    false
}

/// Whether `m` holds the name `u`.
pub(crate) fn contains_name(m: &Vec<String>, u: &String) -> (b: bool)
    ensures
        b == names_view(m@).contains(u@),
{
    let mut j: usize = 0;
    while j < m.len()
        invariant
            j <= m@.len(),
            forall|k: int| 0 <= k < j ==> m@[k]@ != u@,
        decreases m@.len() - j,
    {
        if m[j] == *u {
            assert(names_view(m@)[j as int] == u@);
            return true;
        }
        j = j + 1;
    }
    assert forall|k: int| 0 <= k < names_view(m@).len() implies names_view(m@)[k] != u@ by {}
    false
}

/// `m` without `c`.
pub(crate) fn without_conn(m: &Vec<u64>, c: u64) -> (r: Vec<u64>)
    ensures
        r@ == m@.filter(differs(c)),
{
    let mut r: Vec<u64> = Vec::new();
    let mut j: usize = 0;
    while j < m.len()
        invariant
            j <= m@.len(),
            r@ == m@.take(j as int).filter(differs(c)),
        decreases m@.len() - j,
    {
        proof {
            reveal(Seq::filter);
            assert(m@.take(j + 1).drop_last() == m@.take(j as int));
        }
        if m[j] != c {
            r.push(m[j]);
        }
        j = j + 1;
    }
    assert(m@.take(m@.len() as int) == m@);
    r
}

/// `m` without the name `u`.
pub(crate) fn without_name(m: &Vec<String>, u: &String) -> (r: Vec<String>)
    ensures
        names_view(r@) == names_view(m@).filter(differs(u@)),
{
    let mut r: Vec<String> = Vec::new();
    let mut j: usize = 0;
    while j < m.len()
        invariant
            j <= m@.len(),
            names_view(r@) == names_view(m@.take(j as int)).filter(differs(u@)),
        decreases m@.len() - j,
    {
        proof {
            reveal(Seq::filter);
            assert(names_view(m@.take(j + 1)).drop_last() == names_view(m@.take(j as int)));
            assert(names_view(m@.take(j + 1)).last() == m@[j as int]@);
        }
        if m[j] != *u {
            let ghost before = r@;
            r.push(m[j].clone());
            assert(names_view(r@) == names_view(before).push(m@[j as int]@));
        }
        j = j + 1;
    }
    assert(m@.take(m@.len() as int) == m@);
    r
}

/// `s` with `x` appended to the list under `k`, a new entry being appended
/// where there is none.
pub open spec fn entry_append<K, T>(s: Seq<(K, Seq<T>)>, k: K, x: T) -> Seq<(K, Seq<T>)> {
    if has_key(s, k) {
        let i = key_index(s, k);
        s.update(i, (k, s[i].1.push(x)))
    } else {
        s.push((k, seq![x]))
    }
}

pub(crate) proof fn lemma_entry_append_unique<K, T>(s: Seq<(K, Seq<T>)>, k: K, x: T)
    requires
        keys_unique(s),
    ensures
        keys_unique(entry_append(s, k, x)),
        has_key(entry_append(s, k, x), k),
        set_of(entry_append(s, k, x), k) == set_of(s, k).push(x),
        forall|k2: K| k2 != k ==> set_of(entry_append(s, k, x), k2) == set_of(s, k2),
{
    let t = entry_append(s, k, x);
    if has_key(s, k) {
        let i = key_index(s, k);
        lemma_key_index(s, k, i);
        assert forall|a: int, b: int|
            0 <= a < t.len() && 0 <= b < t.len() && #[trigger] t[a].0 == #[trigger] t[b].0 implies a
            == b by {
            assert(t[a].0 == s[a].0);
            assert(t[b].0 == s[b].0);
        }
        lemma_key_index(t, k, i);
        assert forall|k2: K| k2 != k implies set_of(t, k2) == set_of(s, k2) by {
            if has_key(s, k2) {
                let j = key_index(s, k2);
                lemma_key_index(t, k2, j);
            } else if has_key(t, k2) {
                let j = key_index(t, k2);
                assert(s[j].0 == k2);
            }
        }
    } else {
        assert forall|a: int, b: int|
            0 <= a < t.len() && 0 <= b < t.len() && #[trigger] t[a].0 == #[trigger] t[b].0 implies a
            == b by {
            if a < s.len() && b < s.len() {
                assert(t[a].0 == s[a].0);
                assert(t[b].0 == s[b].0);
            } else if a < s.len() {
                assert(s[a].0 == k);
            } else if b < s.len() {
                assert(s[b].0 == k);
            }
        }
        lemma_key_index(t, k, s.len() as int);
        assert(Seq::<T>::empty().push(x) =~= seq![x]);
        assert forall|k2: K| k2 != k implies set_of(t, k2) == set_of(s, k2) by {
            if has_key(s, k2) {
                let j = key_index(s, k2);
                lemma_key_index(t, k2, j);
            } else if has_key(t, k2) {
                let j = key_index(t, k2);
                if j < s.len() {
                    assert(s[j].0 == k2);
                }
            }
        }
    }
}

/// Adds `x` to the set of names `v`; true where it was not there before.
pub(crate) fn insert_name(v: &mut Vec<String>, x: &String) -> (added: bool)
    requires
        names_view(old(v)@).no_duplicates(),
    ensures
        names_view(final(v)@) == set_insert(names_view(old(v)@), x@),
        names_view(final(v)@).no_duplicates(),
        added == !names_view(old(v)@).contains(x@),
{
    proof {
        lemma_set_insert_no_dup(names_view(old(v)@), x@);
    }
    if contains_name(v, x) {
        false
    } else {
        v.push(x.clone());
        assert(names_view(v@) =~= names_view(old(v)@).push(x@));
        true
    }
}

/// Takes `x` out of the set of names `v`.
pub(crate) fn remove_name(v: &mut Vec<String>, x: &String)
    requires
        names_view(old(v)@).no_duplicates(),
    ensures
        names_view(final(v)@) == names_view(old(v)@).filter(differs(x@)),
        names_view(final(v)@).no_duplicates(),
{
    proof {
        lemma_filter_no_dup(names_view(old(v)@), differs(x@));
    }
    let kept = without_name(v, x);
    *v = kept;
}

/// A table of name lists, each string taken as its characters.
pub open spec fn lists_view(v: Seq<(String, Vec<String>)>) -> Seq<(Seq<char>, Seq<Seq<char>>)> {
    v.map_values(|e: (String, Vec<String>)| (e.0@, names_view(e.1@)))
}

/// Appends `x` to the list of lines under `k`.
pub(crate) fn append_line(s: &mut Vec<(String, Vec<String>)>, k: &String, x: String)
    requires
        keys_unique(lists_view(old(s)@)),
    ensures
        lists_view(final(s)@) == entry_append(lists_view(old(s)@), k@, x@),
{
    let ghost f = |e: (String, Vec<String>)| (e.0@, names_view(e.1@));
    let ghost before = old(s)@.map_values(f);
    let mut i: usize = 0;
    while i < s.len()
        invariant
            i <= s@.len(),
            s@ == old(s)@,
            before == old(s)@.map_values(f),
            keys_unique(before),
            f == (|e: (String, Vec<String>)| (e.0@, names_view(e.1@))),
            forall|j: int| 0 <= j < i ==> (#[trigger] before[j]).0 != k@,
        decreases s@.len() - i,
    {
        if s[i].0 == *k {
            proof {
                lemma_key_index(before, k@, i as int);
            }
            let (name, mut lines) = s.remove(i);
            let ghost old_lines = lines@;
            lines.push(x);
            assert(names_view(lines@) =~= names_view(old_lines).push(x@));
            s.insert(i, (name, lines));
            assert(s@.map_values(f) =~= before.update(i as int, (k@, before[i as int].1.push(x@))));
            return;
        }
        i = i + 1;
    }
    let mut lines: Vec<String> = Vec::new();
    lines.push(x);
    assert(names_view(lines@) =~= seq![x@]);
    s.push((k.clone(), lines));
    assert(s@.map_values(f) =~= before.push((k@, seq![x@])));
}

} // verus!
