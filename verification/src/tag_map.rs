//! The ordered tag map of the library: an `indexmap::IndexMap` from
//! fully-qualified exiv2 keys to their tags, seen through its entries in
//! insertion order.

use vstd::prelude::*;
use indexmap::IndexMap;
use crate::exiv2_backend::{ExifTag, ExifTagView};

verus! {

#[verifier::external_type_specification]
#[verifier::external_body]
#[verifier::reject_recursive_types(K)]
#[verifier::reject_recursive_types(V)]
#[verifier::reject_recursive_types(S)]
pub struct ExIndexMap<K, V, S>(IndexMap<K, V, S>);

/// The entries of a tag map, key and tag, in the map's order.
pub uninterp spec fn tag_entries(m: IndexMap<String, ExifTag>) -> Seq<(Seq<char>, ExifTagView)>;

/// The position of the first entry whose key is `k`.
pub open spec fn key_index(e: Seq<(Seq<char>, ExifTagView)>, k: Seq<char>) -> Option<int>
    decreases e.len(),
{
    if e.len() == 0 {
        None
    } else if e.last().0 == k {
        match key_index(e.drop_last(), k) {
            Some(i) => Some(i),
            None => Some(e.len() - 1),
        }
    } else {
        key_index(e.drop_last(), k)
    }
}

/// The entries after inserting `v` under `k` as `IndexMap::insert` does it:
/// an existing key keeps its place and takes the new value, a new key goes
/// last.
pub open spec fn entries_insert(
    e: Seq<(Seq<char>, ExifTagView)>,
    k: Seq<char>,
    v: ExifTagView,
) -> Seq<(Seq<char>, ExifTagView)> {
    match key_index(e, k) {
        Some(i) => e.update(i, (e[i].0, v)),
        None => e.push((k, v)),
    }
}

/// The value stored under `k`, if any.
pub open spec fn entries_get(e: Seq<(Seq<char>, ExifTagView)>, k: Seq<char>) -> Option<ExifTagView> {
    match key_index(e, k) {
        Some(i) => Some(e[i].1),
        None => None,
    }
}

/// The keys of the entries, in order.
pub open spec fn entry_keys(e: Seq<(Seq<char>, ExifTagView)>) -> Seq<Seq<char>> {
    e.map_values(|p: (Seq<char>, ExifTagView)| p.0)
}

pub proof fn lemma_key_index_bounds(e: Seq<(Seq<char>, ExifTagView)>, k: Seq<char>)
    ensures
        key_index(e, k) matches Some(i) ==> 0 <= i < e.len() && e[i].0 == k && forall|j: int|
            0 <= j < i ==> #[trigger] e[j].0 != k,
        key_index(e, k) is None ==> forall|j: int| 0 <= j < e.len() ==> #[trigger] e[j].0 != k,
    decreases e.len(),
{
    if e.len() > 0 {
        lemma_key_index_bounds(e.drop_last(), k);
        assert forall|j: int| 0 <= j < e.len() - 1 implies #[trigger] e[j] == e.drop_last()[j] by {}
    }
}


/// A key reads back the tag last inserted under it, and every other key
/// keeps its tag: the map law of `IndexMap::insert` and `IndexMap::get`.
pub proof fn law_insert_then_get(
    e: Seq<(Seq<char>, ExifTagView)>,
    k: Seq<char>,
    v: ExifTagView,
    other: Seq<char>,
)
    requires
        other != k,
    ensures
        entries_get(entries_insert(e, k, v), k) == Some(v),
        entries_get(entries_insert(e, k, v), other) == entries_get(e, other),
{
    let r = entries_insert(e, k, v);
    lemma_key_index_bounds(e, k);
    lemma_key_index_bounds(e, other);
    lemma_key_index_bounds(r, k);
    lemma_key_index_bounds(r, other);
    match key_index(e, k) {
        Some(i) => {
            assert(r[i].0 == k);
            match key_index(r, k) {
                Some(j) => {
                    if j < i {
                        assert(r[j].0 == e[j].0);
                    }
                    if j > i {
                        assert(r[i].0 == k);
                    }
                },
                None => {
                    assert(r[i].0 == k);
                },
            }
            match key_index(e, other) {
                Some(j) => {
                    assert(r[j].0 == e[j].0);
                    match key_index(r, other) {
                        Some(q) => {
                            if q < j {
                                assert(r[q].0 == e[q].0);
                            }
                            if q > j {
                                assert(r[j].0 == other);
                            }
                        },
                        None => {},
                    }
                },
                None => {
                    match key_index(r, other) {
                        Some(q) => {
                            assert(r[q].0 == e[q].0);
                        },
                        None => {},
                    }
                },
            }
        },
        None => {
            let n = e.len() as int;
            assert(r[n].0 == k);
            match key_index(r, k) {
                Some(j) => {
                    if j < n {
                        assert(r[j].0 == e[j].0);
                    }
                },
                None => {},
            }
            match key_index(e, other) {
                Some(j) => {
                    assert(r[j].0 == e[j].0);
                    match key_index(r, other) {
                        Some(q) => {
                            if q < j {
                                assert(r[q].0 == e[q].0);
                            }
                            if q > j {
                                assert(r[j].0 == other);
                            }
                        },
                        None => {},
                    }
                },
                None => {
                    match key_index(r, other) {
                        Some(q) => {
                            if q < n {
                                assert(r[q].0 == e[q].0);
                            }
                        },
                        None => {},
                    }
                },
            }
        },
    }
}

/// `IndexMap::new`: a map with no entries.
#[verifier::external_body]
pub(crate) fn tag_map_new() -> (m: IndexMap<String, ExifTag>)
    ensures
        tag_entries(m) == Seq::<(Seq<char>, ExifTagView)>::empty(),
{
    IndexMap::new()
}

/// `IndexMap::insert`: an existing key keeps its place and takes the new
/// tag; a new key is added last.
#[verifier::external_body]
pub(crate) fn tag_map_insert(m: &mut IndexMap<String, ExifTag>, key: String, tag: ExifTag)
    ensures
        tag_entries(*final(m)) == entries_insert(tag_entries(*old(m)), key@, tag@),
{
    m.insert(key, tag);
}

/// `IndexMap::get`: the tag stored under `key`, if any.
#[verifier::external_body]
pub(crate) fn tag_map_get<'a>(m: &'a IndexMap<String, ExifTag>, key: &str) -> (r: Option<&'a ExifTag>)
    ensures
        match r {
            Some(t) => entries_get(tag_entries(*m), key@) == Some(t@),
            None => entries_get(tag_entries(*m), key@) is None,
        },
{
    m.get(key)
}

/// `IndexMap::len`: the number of entries.
#[verifier::external_body]
pub(crate) fn tag_map_len(m: &IndexMap<String, ExifTag>) -> (n: usize)
    ensures
        n == tag_entries(*m).len(),
{
    m.len()
}

/// `IndexMap::get_index`: the entry at position `i` in the map's order.
#[verifier::external_body]
pub(crate) fn tag_map_get_index<'a>(m: &'a IndexMap<String, ExifTag>, i: usize) -> (r: Option<
    (&'a String, &'a ExifTag),
>)
    ensures
        match r {
            Some(kt) => i < tag_entries(*m).len() && kt.0@ == tag_entries(*m)[i as int].0 && kt.1@
                == tag_entries(*m)[i as int].1,
            None => i >= tag_entries(*m).len(),
        },
{
    m.get_index(i)
}

} // verus!
