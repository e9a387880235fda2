//! Association sequences with first-match lookup.
//!
//! The relational facts of a document are small maps; they are held as
//! vectors of entries whose views are sequences of key/value pairs. Lookup
//! takes the first matching entry, and insertion overwrites the first
//! matching entry or appends, so a map built by insertion alone keeps its
//! keys pairwise distinct and behaves as a finite map in which the latest
//! insertion wins.

use vstd::prelude::*;

verus! {

/// Whether some entry of `m` has key `k`.
pub open spec fn has_key<K, T>(m: Seq<(K, T)>, k: K) -> bool {
    exists|i: int| 0 <= i < m.len() && m[i].0 == k
}

/// The least index of an entry with key `k` (meaningful only when `has_key`).
pub open spec fn key_idx<K, T>(m: Seq<(K, T)>, k: K) -> int
    decreases m.len(),
{
    if m.len() == 0 {
        0
    } else if m[0].0 == k {
        0
    } else {
        1 + key_idx(m.drop_first(), k)
    }
}

/// The value of the first entry with key `k`, if any.
pub open spec fn map_lookup<K, T>(m: Seq<(K, T)>, k: K) -> Option<T>
    decreases m.len(),
{
    if m.len() == 0 {
        None
    } else if m[0].0 == k {
        Some(m[0].1)
    } else {
        map_lookup(m.drop_first(), k)
    }
}

/// `m` with the first entry keyed `k` overwritten, or `(k, v)` appended.
pub open spec fn map_insert<K, T>(m: Seq<(K, T)>, k: K, v: T) -> Seq<(K, T)> {
    if has_key(m, k) {
        m.update(key_idx(m, k), (k, v))
    } else {
        m.push((k, v))
    }
}

/// Whether the keys of `m` are pairwise distinct.
pub open spec fn distinct_keys<K, T>(m: Seq<(K, T)>) -> bool {
    forall|i: int, j: int| 0 <= i < j < m.len() ==> m[i].0 != m[j].0
}

/// Whether more than one entry of `m` has key `k`.
pub open spec fn multi_key<K, T>(m: Seq<(K, T)>, k: K) -> bool {
    exists|i: int, j: int| 0 <= i < j < m.len() && m[i].0 == k && m[j].0 == k
}

/// Whether `v` occurs among the values of `m`.
pub open spec fn is_value<K, T>(m: Seq<(K, T)>, v: T) -> bool {
    exists|i: int| 0 <= i < m.len() && m[i].1 == v
}

pub proof fn lemma_key_idx<K, T>(m: Seq<(K, T)>, k: K)
    requires
        has_key(m, k),
    ensures
        0 <= key_idx(m, k) < m.len(),
        m[key_idx(m, k)].0 == k,
        forall|j: int| 0 <= j < key_idx(m, k) ==> m[j].0 != k,
        map_lookup(m, k) == Some(m[key_idx(m, k)].1),
    decreases m.len(),
{
    if m.len() > 0 && m[0].0 != k {
        assert(has_key(m.drop_first(), k)) by {
            let i = choose|i: int| 0 <= i < m.len() && m[i].0 == k;
            assert(m.drop_first()[i - 1].0 == k);
        }
        lemma_key_idx(m.drop_first(), k);
        assert forall|j: int| 0 <= j < key_idx(m, k) implies m[j].0 != k by {
            if j > 0 {
                assert(m.drop_first()[j - 1].0 != k);
            }
        }
        assert(m[key_idx(m, k)] == m.drop_first()[key_idx(m.drop_first(), k)]);
    }
}

pub proof fn lemma_lookup_none<K, T>(m: Seq<(K, T)>, k: K)
    requires
        !has_key(m, k),
    ensures
        map_lookup(m, k) is None,
    decreases m.len(),
{
    if m.len() > 0 {
        assert(m[0].0 != k);
        assert(!has_key(m.drop_first(), k)) by {
            if has_key(m.drop_first(), k) {
                let i = choose|i: int|
                    0 <= i < m.drop_first().len() && m.drop_first()[i].0 == k;
                assert(m[i + 1].0 == k);
            }
        }
        lemma_lookup_none(m.drop_first(), k);
    }
}

/// An entry whose key occurs nowhere earlier gives the lookup result.
pub proof fn lemma_lookup_at_first<K, T>(m: Seq<(K, T)>, i: int)
    requires
        0 <= i < m.len(),
        forall|j: int| 0 <= j < i ==> m[j].0 != m[i].0,
    ensures
        map_lookup(m, m[i].0) == Some(m[i].1),
        key_idx(m, m[i].0) == i,
        has_key(m, m[i].0),
    decreases m.len(),
{
    if i > 0 {
        assert(forall|j: int|
            0 <= j < i - 1 ==> m.drop_first()[j].0 == m[j + 1].0 && m[j + 1].0 != m[i].0);
        assert(m.drop_first()[i - 1] == m[i]);
        lemma_lookup_at_first(m.drop_first(), i - 1);
    }
}

/// With distinct keys, every entry gives the lookup result for its key.
pub proof fn lemma_lookup_distinct<K, T>(m: Seq<(K, T)>, i: int)
    requires
        distinct_keys(m),
        0 <= i < m.len(),
    ensures
        map_lookup(m, m[i].0) == Some(m[i].1),
        key_idx(m, m[i].0) == i,
{
    lemma_lookup_at_first(m, i);
}

/// A successful lookup comes from some entry.
pub proof fn lemma_lookup_some_entry<K, T>(m: Seq<(K, T)>, k: K)
    requires
        map_lookup(m, k) is Some,
    ensures
        exists|i: int|
            0 <= i < m.len() && m[i].0 == k && m[i].1 == map_lookup(m, k)->Some_0,
    decreases m.len(),
{
    if m.len() > 0 && m[0].0 != k {
        lemma_lookup_some_entry(m.drop_first(), k);
        let i = choose|i: int|
            0 <= i < m.drop_first().len() && m.drop_first()[i].0 == k && m.drop_first()[i].1
                == map_lookup(m.drop_first(), k)->Some_0;
        assert(m[i + 1].0 == k && m[i + 1].1 == map_lookup(m, k)->Some_0);
    }
}

/// Insertion keeps keys pairwise distinct.
pub proof fn lemma_insert_distinct<K, T>(m: Seq<(K, T)>, k: K, v: T)
    requires
        distinct_keys(m),
    ensures
        distinct_keys(map_insert(m, k, v)),
{
    if has_key(m, k) {
        lemma_key_idx(m, k);
    } else {
        assert forall|i: int, j: int|
            0 <= i < j < map_insert(m, k, v).len() implies map_insert(m, k, v)[i].0
            != map_insert(m, k, v)[j].0 by {
            if j == m.len() {
                assert(map_insert(m, k, v)[i] == m[i]);
                if m[i].0 == k {
                    assert(has_key(m, k));
                }
            }
        }
    }
}

} // verus!
