//! The ordered maps that the engine's shared state is kept in: `crossbeam_skiplist::SkipMap`, one
//! set of calls for each kind of map that the engine holds.

use bytes::Bytes;
use crossbeam_skiplist::SkipMap;
use std::sync::Arc;
use vstd::prelude::*;

use crate::chain::ChainModel;
use crate::kv::{bytes_view, lex_lt};
use crate::queue::{Commit, Merge};
use crate::versions::Versions;

verus! {

/// `crossbeam_skiplist::SkipMap`: a map ordered by its keys. Opaque here; what the engine's maps
/// hold is `store_view`, `commits_view`, `merges_view` and `counters_view`.
#[verifier::external_type_specification]
#[verifier::external_body]
#[verifier::reject_recursive_types(K)]
#[verifier::reject_recursive_types(V)]
pub struct ExSkipMap<K, V>(SkipMap<K, V>);

/// The store: every key with its version chain.
pub uninterp spec fn store_view(m: SkipMap<Bytes, Arc<Versions>>) -> Map<
    Seq<u8>,
    Seq<(u64, Option<Seq<u8>>)>,
>;

/// The commit queue: under every commit number the record's own number and what was written.
pub uninterp spec fn commits_view(m: SkipMap<u64, Arc<Commit>>) -> Map<
    u64,
    (u64, Map<Seq<u8>, Option<Seq<u8>>>),
>;

/// The merge queue: at every version the record's own number and what was written.
pub uninterp spec fn merges_view(m: SkipMap<u64, Arc<Merge>>) -> Map<
    u64,
    (u64, Map<Seq<u8>, Option<Seq<u8>>>),
>;

/// A table of counters.
pub uninterp spec fn counters_view(m: SkipMap<u64, u64>) -> Map<u64, u64>;

/// A list that holds what a store holds, in the order of the keys.
pub open spec fn lists_store(
    list: Seq<(Bytes, Arc<Versions>)>,
    m: Map<Seq<u8>, ChainModel>,
) -> bool {
    &&& forall|i: int, j: int|
        0 <= i < j < list.len() ==> lex_lt(
            bytes_view(#[trigger] list[i].0),
            bytes_view(#[trigger] list[j].0),
        )
    &&& forall|i: int|
        0 <= i < list.len() ==> m.contains_key(bytes_view(#[trigger] list[i].0)) && m[bytes_view(
            list[i].0,
        )] == list[i].1@
    &&& forall|k: Seq<u8>| #[trigger]
        m.contains_key(k) ==> exists|i: int|
            0 <= i < list.len() && bytes_view(#[trigger] list[i].0) == k
}

/// A list that holds the records of a commit queue from `lo` up to `hi`, in order.
pub open spec fn lists_commits(
    list: Seq<(u64, Arc<Commit>)>,
    m: Map<u64, (u64, Map<Seq<u8>, Option<Seq<u8>>>)>,
    lo: u64,
    hi: u64,
) -> bool {
    &&& forall|i: int, j: int|
        0 <= i < j < list.len() ==> (#[trigger] list[i]).0 < (#[trigger] list[j]).0
    &&& forall|i: int|
        0 <= i < list.len() ==> lo <= (#[trigger] list[i]).0 < hi && m.contains_key(list[i].0)
            && m[list[i].0] == (list[i].1.number(), list[i].1.writes())
    &&& forall|k: u64|
        lo <= k < hi && #[trigger] m.contains_key(k) ==> exists|i: int|
            0 <= i < list.len() && (#[trigger] list[i]).0 == k
}

/// A list that holds the records of a merge queue up to and with `hi`, in order.
pub open spec fn lists_merges(
    list: Seq<(u64, Arc<Merge>)>,
    m: Map<u64, (u64, Map<Seq<u8>, Option<Seq<u8>>>)>,
    hi: u64,
) -> bool {
    &&& forall|i: int, j: int|
        0 <= i < j < list.len() ==> (#[trigger] list[i]).0 < (#[trigger] list[j]).0
    &&& forall|i: int|
        0 <= i < list.len() ==> (#[trigger] list[i]).0 <= hi && m.contains_key(list[i].0)
            && m[list[i].0] == (list[i].1.id, list[i].1.writeset@)
    &&& forall|k: u64|
        k <= hi && #[trigger] m.contains_key(k) ==> exists|i: int|
            0 <= i < list.len() && (#[trigger] list[i]).0 == k
}

/// A list that holds what a table of counters holds, in order.
pub open spec fn lists_counters(list: Seq<(u64, u64)>, m: Map<u64, u64>) -> bool {
    &&& forall|i: int, j: int|
        0 <= i < j < list.len() ==> (#[trigger] list[i]).0 < (#[trigger] list[j]).0
    &&& forall|i: int|
        0 <= i < list.len() ==> m.contains_key((#[trigger] list[i]).0) && m[list[i].0] == list[i].1
    &&& forall|k: u64| #[trigger]
        m.contains_key(k) ==> exists|i: int| 0 <= i < list.len() && (#[trigger] list[i]).0 == k
}

/// Calls `SkipMap::new` for a store: it is empty.
#[verifier::external_body]
pub(crate) fn store_new() -> (r: SkipMap<Bytes, Arc<Versions>>)
    ensures
        store_view(r).dom() == Set::<Seq<u8>>::empty(),
{
    SkipMap::new()
}

/// Calls `SkipMap::get` on a store and shares the chain it finds. Keys compare by their bytes.
#[verifier::external_body]
pub(crate) fn store_get(m: &SkipMap<Bytes, Arc<Versions>>, key: &[u8]) -> (r: Option<Arc<Versions>>)
    ensures
        r is Some == store_view(*m).contains_key(key@),
        r matches Some(v) ==> v@ == store_view(*m)[key@],
{
    m.get(key).map(|e| Arc::clone(e.value()))
}

/// Calls `SkipMap::insert` on a store: the key has this chain afterwards.
#[verifier::external_body]
pub(crate) fn store_insert(m: &mut SkipMap<Bytes, Arc<Versions>>, key: Bytes, value: Arc<Versions>)
    ensures
        store_view(*final(m)) == store_view(*old(m)).insert(bytes_view(key), value@),
{
    m.insert(key, value);
}

/// Calls `SkipMap::remove` on a store: the key is gone afterwards.
#[verifier::external_body]
pub(crate) fn store_remove(m: &mut SkipMap<Bytes, Arc<Versions>>, key: &[u8])
    ensures
        store_view(*final(m)) == store_view(*old(m)).remove(key@),
{
    m.remove(key);
}

/// Calls `SkipMap::iter` on a store, which yields every key with its chain in the order of the
/// keys.
#[verifier::external_body]
pub(crate) fn store_iter(m: &SkipMap<Bytes, Arc<Versions>>) -> (r: Vec<(Bytes, Arc<Versions>)>)
    ensures
        lists_store(r@, store_view(*m)),
{
    m.iter().map(|e| (e.key().clone(), Arc::clone(e.value()))).collect()
}

/// Calls `SkipMap::new` for a commit queue: it is empty.
#[verifier::external_body]
pub(crate) fn commits_new() -> (r: SkipMap<u64, Arc<Commit>>)
    ensures
        commits_view(r).dom() == Set::<u64>::empty(),
{
    SkipMap::new()
}

/// Calls `SkipMap::get_or_insert_with` on a commit queue: the record goes in where there is none
/// under that number, and the one that is there afterwards is returned.
#[verifier::external_body]
pub(crate) fn commits_get_or_insert(
    m: &mut SkipMap<u64, Arc<Commit>>,
    key: u64,
    value: &Arc<Commit>,
) -> (r: Arc<Commit>)
    ensures
        commits_view(*old(m)).contains_key(key) ==> commits_view(*final(m)) == commits_view(*old(m))
            && (r.number(), r.writes()) == commits_view(*old(m))[key],
        !commits_view(*old(m)).contains_key(key) ==> commits_view(*final(m)) == commits_view(
            *old(m),
        ).insert(key, (value.number(), value.writes())) && r == *value,
{
    Arc::clone(m.get_or_insert_with(key, || Arc::clone(value)).value())
}

/// Calls `SkipMap::remove` on a commit queue: the number is gone afterwards.
#[verifier::external_body]
pub(crate) fn commits_remove(m: &mut SkipMap<u64, Arc<Commit>>, key: u64)
    ensures
        commits_view(*final(m)) == commits_view(*old(m)).remove(key),
{
    m.remove(&key);
}

/// Calls `SkipMap::range` on a commit queue, which yields the records from `lo` up to `hi` in
/// order.
#[verifier::external_body]
pub(crate) fn commits_range(m: &SkipMap<u64, Arc<Commit>>, lo: u64, hi: u64) -> (r: Vec<
    (u64, Arc<Commit>),
>)
    ensures
        lists_commits(r@, commits_view(*m), lo, hi),
{
    m.range(lo..hi).map(|e| (*e.key(), Arc::clone(e.value()))).collect()
}

/// Calls `SkipMap::new` for a merge queue: it is empty.
#[verifier::external_body]
pub(crate) fn merges_new() -> (r: SkipMap<u64, Arc<Merge>>)
    ensures
        merges_view(r).dom() == Set::<u64>::empty(),
{
    SkipMap::new()
}

/// Calls `SkipMap::get_or_insert_with` on a merge queue: the record goes in where there is none
/// at that version, and the one that is there afterwards is returned.
#[verifier::external_body]
pub(crate) fn merges_get_or_insert(
    m: &mut SkipMap<u64, Arc<Merge>>,
    key: u64,
    value: &Arc<Merge>,
) -> (r: Arc<Merge>)
    ensures
        merges_view(*old(m)).contains_key(key) ==> merges_view(*final(m)) == merges_view(*old(m))
            && (r.id, r.writeset@) == merges_view(*old(m))[key],
        !merges_view(*old(m)).contains_key(key) ==> merges_view(*final(m)) == merges_view(
            *old(m),
        ).insert(key, (value.id, value.writeset@)) && r == *value,
{
    Arc::clone(m.get_or_insert_with(key, || Arc::clone(value)).value())
}

/// Calls `SkipMap::remove` on a merge queue: the version is gone afterwards.
#[verifier::external_body]
pub(crate) fn merges_remove(m: &mut SkipMap<u64, Arc<Merge>>, key: u64)
    ensures
        merges_view(*final(m)) == merges_view(*old(m)).remove(key),
{
    m.remove(&key);
}

/// Calls `SkipMap::range` on a merge queue, which yields the records up to and with `hi` in
/// order.
#[verifier::external_body]
pub(crate) fn merges_range(m: &SkipMap<u64, Arc<Merge>>, hi: u64) -> (r: Vec<(u64, Arc<Merge>)>)
    ensures
        lists_merges(r@, merges_view(*m), hi),
{
    m.range(..=hi).map(|e| (*e.key(), Arc::clone(e.value()))).collect()
}

/// Calls `SkipMap::new` for a table of counters: it is empty.
#[verifier::external_body]
pub(crate) fn counters_new() -> (r: SkipMap<u64, u64>)
    ensures
        counters_view(r).dom() == Set::<u64>::empty(),
{
    SkipMap::new()
}

/// Calls `SkipMap::get_or_insert_with` on a table of counters: a counter of 0 goes in where there
/// is none, and what the counter is afterwards is returned.
#[verifier::external_body]
pub(crate) fn counters_get_or_insert(m: &mut SkipMap<u64, u64>, key: u64) -> (r: u64)
    ensures
        counters_view(*old(m)).contains_key(key) ==> counters_view(*final(m)) == counters_view(
            *old(m),
        ) && r == counters_view(*old(m))[key],
        !counters_view(*old(m)).contains_key(key) ==> counters_view(*final(m)) == counters_view(
            *old(m),
        ).insert(key, 0) && r == 0,
{
    *m.get_or_insert_with(key, || 0).value()
}

/// Calls `SkipMap::get` on a table of counters.
#[verifier::external_body]
pub(crate) fn counters_get(m: &SkipMap<u64, u64>, key: u64) -> (r: Option<u64>)
    ensures
        r is Some == counters_view(*m).contains_key(key),
        r matches Some(c) ==> c == counters_view(*m)[key],
{
    m.get(&key).map(|e| *e.value())
}

/// Calls `SkipMap::insert` on a table of counters: the counter has this value afterwards.
#[verifier::external_body]
pub(crate) fn counters_insert(m: &mut SkipMap<u64, u64>, key: u64, value: u64)
    ensures
        counters_view(*final(m)) == counters_view(*old(m)).insert(key, value),
{
    m.insert(key, value);
}

/// Calls `SkipMap::remove` on a table of counters: the counter is gone afterwards.
#[verifier::external_body]
pub(crate) fn counters_remove(m: &mut SkipMap<u64, u64>, key: u64)
    ensures
        counters_view(*final(m)) == counters_view(*old(m)).remove(key),
{
    m.remove(&key);
}

/// Calls `SkipMap::iter` on a table of counters, which yields every counter in the order of the
/// keys.
#[verifier::external_body]
pub(crate) fn counters_iter(m: &SkipMap<u64, u64>) -> (r: Vec<(u64, u64)>)
    ensures
        lists_counters(r@, counters_view(*m)),
{
    m.iter().map(|e| (*e.key(), *e.value())).collect()
}

} // verus!
