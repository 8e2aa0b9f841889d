//! Lists of (key, value) entries in which no key occurs twice, read as
//! maps.  The broker keeps its sessions, a session's subscriptions and the
//! shared-subscription cursors this way.

use vstd::prelude::*;

verus! {

/// No key occurs twice in the list.
pub open spec fn keys_distinct<K, V>(s: Seq<(K, V)>) -> bool {
    forall|i: int, j: int| 0 <= i < s.len() && 0 <= j < s.len() && i != j ==> s[i].0 != s[j].0
}

/// Whether the key occurs in the list.
pub open spec fn has_key<K, V>(s: Seq<(K, V)>, k: K) -> bool {
    exists|i: int| 0 <= i < s.len() && s[i].0 == k
}

/// The position of the key in the list.
pub open spec fn key_index<K, V>(s: Seq<(K, V)>, k: K) -> int {
    choose|i: int| 0 <= i < s.len() && s[i].0 == k
}

/// The list read as a map.
pub open spec fn key_map<K, V>(s: Seq<(K, V)>) -> Map<K, V> {
    Map::new(|k: K| has_key(s, k), |k: K| s[key_index(s, k)].1)
}

pub(crate) proof fn lemma_key_index<K, V>(s: Seq<(K, V)>, i: int)
    requires
        keys_distinct(s),
        0 <= i < s.len(),
    ensures
        has_key(s, s[i].0),
        key_index(s, s[i].0) == i,
        key_map(s).contains_key(s[i].0),
        key_map(s)[s[i].0] == s[i].1,
{
    let j = key_index(s, s[i].0);
    assert(0 <= j < s.len() && s[j].0 == s[i].0);
}

pub(crate) proof fn lemma_key_map_update<K, V>(s: Seq<(K, V)>, i: int, e: (K, V))
    requires
        keys_distinct(s),
        0 <= i < s.len(),
        e.0 == s[i].0,
    ensures
        keys_distinct(s.update(i, e)),
        key_map(s.update(i, e)) == key_map(s).insert(e.0, e.1),
{
    let u = s.update(i, e);
    assert forall|k: K| #[trigger] has_key(u, k) == (has_key(s, k) || k == e.0) by {
        if has_key(s, k) {
            let j = key_index(s, k);
            assert(u[j].0 == k);
        }
        if has_key(u, k) {
            let j = key_index(u, k);
            assert(s[j].0 == k);
        }
        assert(u[i].0 == e.0);
    }
    assert forall|k: K| has_key(u, k) implies #[trigger] u[key_index(u, k)].1 == if k == e.0 {
        e.1
    } else {
        s[key_index(s, k)].1
    } by {
        let j = key_index(u, k);
        if k == e.0 {
            lemma_key_index(u, i);
        } else {
            assert(j != i);
            assert(s[j].0 == k);
            lemma_key_index(s, j);
        }
    }
    assert(key_map(u) =~= key_map(s).insert(e.0, e.1));
}

pub(crate) proof fn lemma_key_map_push<K, V>(s: Seq<(K, V)>, e: (K, V))
    requires
        keys_distinct(s),
        !has_key(s, e.0),
    ensures
        keys_distinct(s.push(e)),
        key_map(s.push(e)) == key_map(s).insert(e.0, e.1),
{
    let u = s.push(e);
    assert forall|i: int, j: int| 0 <= i < u.len() && 0 <= j < u.len() && i != j implies u[i].0 != u[j].0 by {
        if i < s.len() && j < s.len() {
        } else if i < s.len() {
            assert(s[i].0 != e.0);
        } else {
            assert(s[j].0 != e.0);
        }
    }
    assert forall|k: K| #[trigger] has_key(u, k) == (has_key(s, k) || k == e.0) by {
        if has_key(s, k) {
            let j = key_index(s, k);
            assert(u[j].0 == k);
        }
        if has_key(u, k) {
            let j = key_index(u, k);
            if j < s.len() {
                assert(s[j].0 == k);
            }
        }
        assert(u[s.len() as int].0 == e.0);
    }
    assert forall|k: K| has_key(u, k) implies #[trigger] u[key_index(u, k)].1 == if k == e.0 {
        e.1
    } else {
        s[key_index(s, k)].1
    } by {
        let j = key_index(u, k);
        if k == e.0 {
            lemma_key_index(u, s.len() as int);
        } else {
            assert(j < s.len());
            lemma_key_index(s, j);
        }
    }
    assert(key_map(u) =~= key_map(s).insert(e.0, e.1));
}

pub(crate) proof fn lemma_key_map_remove<K, V>(s: Seq<(K, V)>, i: int)
    requires
        keys_distinct(s),
        0 <= i < s.len(),
    ensures
        keys_distinct(s.remove(i)),
        key_map(s.remove(i)) == key_map(s).remove(s[i].0),
{
    let u = s.remove(i);
    let k0 = s[i].0;
    assert forall|a: int, b: int| 0 <= a < u.len() && 0 <= b < u.len() && a != b implies u[a].0 != u[b].0 by {
        let a2 = if a < i { a } else { a + 1 };
        let b2 = if b < i { b } else { b + 1 };
        assert(u[a] == s[a2] && u[b] == s[b2]);
    }
    assert forall|k: K| #[trigger] has_key(u, k) == (has_key(s, k) && k != k0) by {
        if has_key(u, k) {
            let j = key_index(u, k);
            let j2 = if j < i { j } else { j + 1 };
            assert(u[j] == s[j2]);
            assert(j2 != i);
        }
        if has_key(s, k) && k != k0 {
            let j = key_index(s, k);
            assert(j != i);
            let j1 = if j < i { j } else { j - 1 };
            assert(u[j1] == s[j]);
        }
    }
    assert forall|k: K| has_key(u, k) implies #[trigger] u[key_index(u, k)].1 == s[key_index(s, k)].1 by {
        let j = key_index(u, k);
        let j2 = if j < i { j } else { j + 1 };
        assert(u[j] == s[j2]);
        lemma_key_index(s, j2);
    }
    assert(key_map(u) =~= key_map(s).remove(k0));
}

pub(crate) proof fn lemma_key_map_absent<K, V>(s: Seq<(K, V)>, k: K)
    requires
        !has_key(s, k),
    ensures
        !key_map(s).contains_key(k),
        key_map(s) == key_map(s).remove(k),
{
    assert(key_map(s) =~= key_map(s).remove(k));
}

pub(crate) proof fn lemma_key_map_empty<K, V>(s: Seq<(K, V)>)
    requires
        s.len() == 0,
    ensures
        keys_distinct(s),
        key_map(s) == Map::<K, V>::empty(),
{
    assert(key_map(s) =~= Map::<K, V>::empty());
}

} // verus!
