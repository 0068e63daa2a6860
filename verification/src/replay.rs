//! Snapshots and logs as bytes: how the store is written out, and how it is read back.

use bytes::Bytes;
use std::sync::Arc;
use vstd::prelude::*;
use vstd::slice::slice_subrange;

use crate::chain::{chain_push_all, ChainModel};
use crate::codec::{
    decode_log_record, decode_snapshot_entry, encode_log_record, encode_snapshot_entry, log_bytes,
    log_step, snapshot_bytes, snapshot_step, starts_with, torn_record, LogRead, LogStep, SnapshotRead,
    SnapshotStep,
};
use crate::compression::{
    detected, packed, read_packed, unpacked, CompressedWriter, CompressionMode,
};
use crate::error::PersistenceError;
use crate::inner::Inner;
use crate::kv::{
    bytes_view, value_clone, value_view, lemma_lex_irreflexive, lemma_lex_transitive, lex_lt,
};
use crate::model::{key_write, EngineState, StoreModel};
use crate::skip::lists_store;
use crate::versions::{pairs_view, Version, Versions};
use crate::writeset::{EntriesModel, WriteSet};

verus! {

/// Keys with their chains.
pub type ListingModel = Seq<(Seq<u8>, ChainModel)>;

/// Writes: key, version and value.
pub type RecordsModel = Seq<(Seq<u8>, u64, Option<Seq<u8>>)>;

/// A list of all keys of a store with their chains, in the order of the keys.
pub open spec fn is_listing(list: ListingModel, store: StoreModel) -> bool {
    &&& forall|i: int, j: int|
        0 <= i < j < list.len() ==> lex_lt(#[trigger] list[i].0, #[trigger] list[j].0)
    &&& forall|i: int|
        0 <= i < list.len() ==> store.contains_key(#[trigger] list[i].0) && store[list[i].0]
            == list[i].1
    &&& forall|k: Seq<u8>| #[trigger]
        store.contains_key(k) ==> exists|i: int| 0 <= i < list.len() && #[trigger] list[i].0 == k
}

/// The entries of a list whose chain is not empty.
pub open spec fn nonempty(list: ListingModel) -> ListingModel
    decreases list.len(),
{
    if list.len() == 0 {
        list
    } else if list[0].1.len() > 0 {
        seq![list[0]] + nonempty(list.skip(1))
    } else {
        nonempty(list.skip(1))
    }
}

/// Some bytes followed by others, where there are both.
pub open spec fn joined(a: Option<Seq<u8>>, b: Option<Seq<u8>>) -> Option<Seq<u8>> {
    match (a, b) {
        (Some(x), Some(y)) => Some(x + y),
        _ => None,
    }
}

/// A list of keys with their chains as bytes.
pub open spec fn snapshot_image(list: ListingModel) -> Option<Seq<u8>>
    decreases list.len(),
{
    if list.len() == 0 {
        Some(Seq::empty())
    } else {
        joined(snapshot_bytes(list[0].0, list[0].1), snapshot_image(list.skip(1)))
    }
}

/// A list of writes as bytes.
pub open spec fn log_image(records: RecordsModel) -> Option<Seq<u8>>
    decreases records.len(),
{
    if records.len() == 0 {
        Some(Seq::empty())
    } else {
        joined(
            log_bytes(records[0].0, records[0].1, records[0].2),
            log_image(records.skip(1)),
        )
    }
}

/// The writes of a commit at a version.
pub open spec fn records_of(version: u64, list: EntriesModel) -> RecordsModel {
    Seq::new(list.len(), |i: int| (list[i].0, version, list[i].1))
}

/// What reading came to: the store, and whether the bytes were sound.
pub struct Replayed {
    pub store: StoreModel,
    pub ok: bool,
}

/// The store after an entry of a snapshot was read: its versions are written one by one to an
/// empty chain.
pub open spec fn load_entry(store: StoreModel, key: Seq<u8>, chain: ChainModel) -> StoreModel {
    if chain.len() > 0 {
        store.insert(key, chain_push_all(Seq::empty(), chain))
    } else {
        store
    }
}

/// The store after a list of entries was read.
pub open spec fn load_all(store: StoreModel, list: ListingModel) -> StoreModel
    decreases list.len(),
{
    if list.len() == 0 {
        store
    } else {
        load_all(load_entry(store, list[0].0, list[0].1), list.skip(1))
    }
}

/// What reading the bytes of a snapshot comes to. It stops at the end of the bytes, even in the
/// middle of an entry, and fails where they are no entry.
pub open spec fn replay_snapshot(store: StoreModel, input: Seq<u8>) -> Replayed
    decreases input.len(),
{
    match snapshot_step(input) {
        SnapshotStep::End => Replayed { store, ok: true },
        SnapshotStep::Broken => Replayed { store, ok: false },
        SnapshotStep::Entry { key, chain, used } => if 0 < used <= input.len() {
            replay_snapshot(load_entry(store, key, chain), input.skip(used as int))
        } else {
            Replayed { store, ok: false }
        },
    }
}

/// The store after a write of the log was read.
pub open spec fn replay_record(
    store: StoreModel,
    key: Seq<u8>,
    version: u64,
    value: Option<Seq<u8>>,
) -> StoreModel {
    store.insert(key, key_write(store, key, version, value))
}

/// The store after a list of writes was read.
pub open spec fn replay_all(store: StoreModel, records: RecordsModel) -> StoreModel
    decreases records.len(),
{
    if records.len() == 0 {
        store
    } else {
        replay_all(
            replay_record(store, records[0].0, records[0].1, records[0].2),
            records.skip(1),
        )
    }
}

/// What reading the bytes of a log comes to. It stops at the end of the bytes, even in the middle
/// of a record, and fails where they are no record.
pub open spec fn replay_log(store: StoreModel, input: Seq<u8>) -> Replayed
    decreases input.len(),
{
    match log_step(input) {
        LogStep::End => Replayed { store, ok: true },
        LogStep::Broken => Replayed { store, ok: false },
        LogStep::Record { key, version, value, used } => if 0 < used <= input.len() {
            replay_log(replay_record(store, key, version, value), input.skip(used as int))
        } else {
            Replayed { store, ok: false }
        },
    }
}

/// What reading a snapshot file comes to; there may be none, or an empty one.
pub open spec fn restore_snapshot(store: StoreModel, file: Option<Seq<u8>>) -> Replayed {
    match file {
        None => Replayed { store, ok: true },
        Some(data) => if data.len() == 0 {
            Replayed { store, ok: true }
        } else {
            match unpacked(data) {
                None => Replayed { store, ok: false },
                Some(plain) => replay_snapshot(store, plain),
            }
        },
    }
}

/// What reading a log file comes to; there may be none, or an empty one.
pub open spec fn restore_log(store: StoreModel, file: Option<Seq<u8>>) -> Replayed {
    match file {
        None => Replayed { store, ok: true },
        Some(data) => if data.len() == 0 {
            Replayed { store, ok: true }
        } else {
            match unpacked(data) {
                None => Replayed { store, ok: false },
                Some(plain) => replay_log(store, plain),
            }
        },
    }
}

/// What reading both files comes to: the snapshot first, and then the log.
pub open spec fn restore(
    store: StoreModel,
    snapshot: Option<Seq<u8>>,
    log: Option<Seq<u8>>,
) -> Replayed {
    let first = restore_snapshot(store, snapshot);
    if first.ok {
        restore_log(first.store, log)
    } else {
        first
    }
}

/// A snapshot file holds a list of entries: there is none and the list is empty, or it is what the
/// list is packed to, and is taken for that.
pub open spec fn holds_snapshot(
    file: Option<Seq<u8>>,
    list: ListingModel,
    mode: CompressionMode,
) -> bool {
    match file {
        None => list.len() == 0,
        Some(f) => {
            &&& snapshot_image(list) is Some
            &&& packed(snapshot_image(list)->0, mode) == Some(f)
            &&& detected(f) == mode
            &&& f.len() > 0 || list.len() == 0
        },
    }
}

/// A log file holds a list of writes: there is none and the list is empty, or it is what the list
/// is written as, perhaps with a part of another write behind it, and is not taken for
/// compressed.
pub open spec fn holds_log(file: Option<Seq<u8>>, records: RecordsModel) -> bool {
    match file {
        None => records.len() == 0,
        Some(f) => {
            &&& detected(f) == CompressionMode::Uncompressed
            &&& f.len() > 0 || records.len() == 0
            &&& log_image(records) == Some(f) || (starts_with(f, log_image(records))
                && torn_record(f.skip(log_image(records)->0.len() as int)))
        },
    }
}

/// What an optional slice holds.
pub open spec fn file_view(f: Option<&[u8]>) -> Option<Seq<u8>> {
    match f {
        Some(s) => Some(s@),
        None => None,
    }
}

/// What a list of keys and chains of the store holds.
pub open spec fn listing_view(list: Seq<(Bytes, Arc<Versions>)>) -> ListingModel {
    Seq::new(list.len(), |i: int| (bytes_view(list[i].0), list[i].1@))
}

/// The list of a store's entries lists the store.
pub proof fn lemma_entries_listing(entries: Seq<(Bytes, Arc<Versions>)>, store: StoreModel)
    requires
        lists_store(entries, store),
    ensures
        is_listing(listing_view(entries), store),
{
    let list = listing_view(entries);
    assert forall|i: int, j: int| 0 <= i < j < list.len() implies lex_lt(
        #[trigger] list[i].0,
        #[trigger] list[j].0,
    ) by {
        assert(lex_lt(bytes_view(entries[i].0), bytes_view(entries[j].0)));
    }
    assert forall|i: int| 0 <= i < list.len() implies store.contains_key(#[trigger] list[i].0)
        && store[list[i].0] == list[i].1 by {
        assert(store.contains_key(bytes_view(entries[i].0)));
    }
    assert forall|k: Seq<u8>| #[trigger] store.contains_key(k) implies exists|i: int|
        0 <= i < list.len() && #[trigger] list[i].0 == k by {
        let i = choose|i: int| 0 <= i < entries.len() && bytes_view(#[trigger] entries[i].0) == k;
        assert(list[i].0 == k);
    }
}

/// There is one listing of a store at most.
pub proof fn lemma_listing_unique(a: ListingModel, b: ListingModel, store: StoreModel)
    requires
        is_listing(a, store),
        is_listing(b, store),
    ensures
        a == b,
    decreases a.len(),
{
    if a.len() == 0 {
        if b.len() > 0 {
            assert(store.contains_key(b[0].0));
            let i = choose|i: int| 0 <= i < a.len() && #[trigger] a[i].0 == b[0].0;
        }
    } else {
        let ka = a.last().0;
        assert(store.contains_key(a[a.len() - 1].0));
        let ib = choose|i: int| 0 <= i < b.len() && #[trigger] b[i].0 == ka;
        assert(b[ib].0 == ka);
        let kb = b.last().0;
        assert(store.contains_key(b[b.len() - 1].0));
        let ia = choose|i: int| 0 <= i < a.len() && #[trigger] a[i].0 == kb;
        assert(a[ia].0 == kb);
        if ia < a.len() - 1 && ib < b.len() - 1 {
            assert(lex_lt(a[ia].0, a[a.len() - 1].0));
            assert(lex_lt(b[ib].0, b[b.len() - 1].0));
            lemma_lex_transitive(ka, kb, ka);
            lemma_lex_irreflexive(ka);
        }
        assert(ka == kb);
        assert(a.last() == b.last());
        let rest = store.remove(ka);
        lemma_listing_drop(a, store);
        lemma_listing_drop(b, store);
        lemma_listing_unique(a.drop_last(), b.drop_last(), rest);
        assert(a =~= a.drop_last().push(a.last()));
        assert(b =~= b.drop_last().push(b.last()));
    }
}

/// A listing without its last entry lists the store without that key.
proof fn lemma_listing_drop(a: ListingModel, store: StoreModel)
    requires
        is_listing(a, store),
        a.len() > 0,
    ensures
        is_listing(a.drop_last(), store.remove(a.last().0)),
{
    let d = a.drop_last();
    let k = a.last().0;
    let rest = store.remove(k);
    assert forall|i: int, j: int| 0 <= i < j < d.len() implies lex_lt(
        #[trigger] d[i].0,
        #[trigger] d[j].0,
    ) by {
        assert(lex_lt(a[i].0, a[j].0));
    }
    assert forall|i: int| 0 <= i < d.len() implies rest.contains_key(#[trigger] d[i].0)
        && rest[d[i].0] == d[i].1 by {
        assert(a[i].0 == d[i].0);
        assert(lex_lt(a[i].0, a[a.len() - 1].0));
        lemma_lex_irreflexive(k);
    }
    assert forall|x: Seq<u8>| #[trigger] rest.contains_key(x) implies exists|i: int|
        0 <= i < d.len() && #[trigger] d[i].0 == x by {
        assert(store.contains_key(x));
        let i = choose|i: int| 0 <= i < a.len() && #[trigger] a[i].0 == x;
        assert(d[i].0 == x);
    }
}

/// The plain bytes of a snapshot: every key whose chain is not empty, with its chain, in the
/// order of the keys.
pub fn encode_store(inner: &Inner, writer: &mut CompressedWriter) -> (r: Result<
    (),
    PersistenceError,
>)
    ensures
        final(writer).compression() == old(writer).compression(),
        exists|list: ListingModel| #[trigger]
            is_listing(list, inner@.store) && match r {
                Ok(_) => snapshot_image(nonempty(list)) is Some && final(writer).written() == old(
                    writer,
                ).written() + snapshot_image(nonempty(list))->0,
                Err(e) => snapshot_image(nonempty(list)) is None && e is Serialization,
            },
{
    let entries = inner.entries();
    let ghost list = listing_view(entries@);
    let ghost start = writer.written();
    let ghost mut out: Seq<u8> = Seq::empty();
    proof {
        lemma_entries_listing(entries@, inner@.store);
        assert(list.skip(0) =~= list);
        lemma_joined_empty(snapshot_image(nonempty(list)));
        assert(start + out =~= start);
    }
    let mut i: usize = 0;
    while i < entries.len()
        invariant
            i <= entries@.len(),
            list == listing_view(entries@),
            is_listing(list, inner@.store),
            writer.compression() == old(writer).compression(),
            writer.written() == start + out,
            start == old(writer).written(),
            snapshot_image(nonempty(list)) == joined(
                Some(out),
                snapshot_image(nonempty(list.skip(i as int))),
            ),
        decreases entries@.len() - i,
    {
        let versions = entries[i].1.all_versions();
        let ghost rest = list.skip(i as int);
        let ghost before = out;
        proof {
            assert(rest.skip(1) =~= list.skip(i + 1));
            assert(rest[0] == list[i as int]);
            assert(list[i as int] == (bytes_view(entries@[i as int].0), pairs_view(versions@)));
        }
        if versions.len() > 0 {
            proof {
                assert(nonempty(rest)[0] == rest[0]);
                assert(nonempty(rest).skip(1) =~= nonempty(rest.skip(1)));
            }
            match encode_snapshot_entry(&entries[i].0, &versions) {
                Ok(b) => {
                    writer.write(b.as_slice());
                    proof {
                        out = out + b@;
                        lemma_joined_step(
                            Some(before),
                            Some(b@),
                            snapshot_image(nonempty(rest.skip(1))),
                        );
                        assert((start + before) + b@ =~= start + out);
                    }
                },
                Err(e) => {
                    return Err(PersistenceError::Serialization(e));
                },
            }
        }
        i += 1;
    }
    proof {
        assert(list.skip(i as int).len() == 0);
        assert(out + Seq::<u8>::empty() =~= out);
    }
    Ok(())
}

proof fn lemma_joined_empty(b: Option<Seq<u8>>)
    ensures
        joined(Some(Seq::empty()), b) == b,
{
    if b is Some {
        assert(Seq::<u8>::empty() + b->0 =~= b->0);
    }
}

proof fn lemma_joined_step(a: Option<Seq<u8>>, b: Option<Seq<u8>>, c: Option<Seq<u8>>)
    ensures
        joined(a, joined(b, c)) == joined(joined(a, b), c),
{
    if a is Some && b is Some && c is Some {
        assert(a->0 + (b->0 + c->0) =~= (a->0 + b->0) + c->0);
    }
}

/// Where the bytes of a list begin an input, its first entry does, and the bytes of the others
/// follow.
proof fn lemma_joined_prefix(a: Option<Seq<u8>>, b: Option<Seq<u8>>, input: Seq<u8>)
    requires
        starts_with(input, joined(a, b)),
    ensures
        starts_with(input, a),
        starts_with(input.skip(a->0.len() as int), b),
        joined(a, b)->0.len() == a->0.len() + b->0.len(),
        input.skip(joined(a, b)->0.len() as int) == input.skip(a->0.len() as int).skip(
            b->0.len() as int,
        ),
{
    let whole = a->0 + b->0;
    assert(joined(a, b) == Some(whole));
    assert(whole.is_prefix_of(input));
    assert(whole =~= input.take(whole.len() as int));
    assert(a->0 =~= input.take(a->0.len() as int)) by {
        assert forall|i: int| 0 <= i < a->0.len() implies a->0[i] == input[i] by {
            assert(whole[i] == a->0[i]);
        }
    }
    let rest = input.skip(a->0.len() as int);
    assert(b->0 =~= rest.take(b->0.len() as int)) by {
        assert forall|i: int| 0 <= i < b->0.len() implies b->0[i] == rest[i] by {
            assert(whole[a->0.len() + i] == b->0[i]);
        }
    }
    assert(input.skip(whole.len() as int) =~= rest.skip(b->0.len() as int));
}

/// The bytes of a list of entries begin an input; `i` entries were read from the first `pos`
/// bytes and gave `now`.
spec fn snapshot_on_track(
    list: ListingModel,
    data: Seq<u8>,
    store: StoreModel,
    now: StoreModel,
    pos: int,
    i: int,
) -> bool {
    &&& i <= list.len() ==> {
        &&& starts_with(data.skip(pos), snapshot_image(list.skip(i)))
        &&& pos + snapshot_image(list.skip(i))->0.len() == snapshot_image(list)->0.len()
        &&& load_all(store, list) == load_all(now, list.skip(i))
    }
    &&& i >= list.len() ==> replay_snapshot(store, data) == replay_snapshot(
        load_all(store, list),
        data.skip(snapshot_image(list)->0.len() as int),
    )
    &&& i > list.len() ==> snapshot_image(list)->0.len() < pos
}

/// Reading one entry stays on track.
proof fn lemma_snapshot_step(
    list: ListingModel,
    data: Seq<u8>,
    store: StoreModel,
    now: StoreModel,
    pos: int,
    i: int,
    key: Seq<u8>,
    chain: ChainModel,
    used: nat,
)
    requires
        0 <= pos,
        0 < used,
        pos + used <= data.len(),
        i >= 0,
        starts_with(data, snapshot_image(list)),
        snapshot_on_track(list, data, store, now, pos, i),
        snapshot_step(data.skip(pos)) == (SnapshotStep::Entry { key, chain, used }),
        replay_snapshot(store, data) == replay_snapshot(now, data.skip(pos)),
        i < list.len() ==> {
            &&& list[i] == (key, chain)
            &&& snapshot_bytes(key, chain) is Some
            &&& snapshot_bytes(key, chain)->0.len() == used
        },
    ensures
        snapshot_on_track(list, data, store, load_entry(now, key, chain), pos + used, i + 1),
{
    let next = load_entry(now, key, chain);
    assert(data.skip(pos).skip(used as int) =~= data.skip(pos + used));
    assert(replay_snapshot(now, data.skip(pos)) == replay_snapshot(next, data.skip(pos + used)));
    if i < list.len() {
        let left = list.skip(i);
        assert(left.skip(1) =~= list.skip(i + 1));
        assert(left[0] == (key, chain));
        assert(load_all(now, left) == load_all(next, left.skip(1)));
        lemma_joined_prefix(
            snapshot_bytes(key, chain),
            snapshot_image(left.skip(1)),
            data.skip(pos),
        );
        if i + 1 == list.len() {
            assert(list.skip(i + 1).len() == 0);
        }
    } else if i == list.len() {
        assert(list.skip(i).len() == 0);
    }
}

/// Where the bytes of a list of entries begin an input, reading starts with its entries.
proof fn lemma_snapshot_start(list: ListingModel, data: Seq<u8>, store: StoreModel)
    requires
        starts_with(data, snapshot_image(list)),
    ensures
        snapshot_on_track(list, data, store, store, 0, 0),
{
    assert(data.skip(0) =~= data);
    assert(list.skip(0) =~= list);
}

/// The versions of an entry, written one by one to an empty chain.
fn collect_versions(versions: &Vec<(u64, Option<Bytes>)>) -> (r: Versions)
    ensures
        r@ == chain_push_all(Seq::empty(), pairs_view(versions@)),
        r.wf(),
{
    let mut chain = Versions::new();
    let ghost all = pairs_view(versions@);
    let mut i: usize = 0;
    assert(chain@ =~= Seq::empty());
    assert(all.take(0) =~= Seq::empty());
    while i < versions.len()
        invariant
            i <= versions@.len(),
            all == pairs_view(versions@),
            chain.wf(),
            chain@ == chain_push_all(Seq::empty(), all.take(i as int)),
        decreases versions@.len() - i,
    {
        let (version, value) = &versions[i];
        assert(all.take(i + 1).drop_last() =~= all.take(i as int));
        chain.push(Version { version: *version, value: value_clone(value) });
        i += 1;
    }
    assert(all.take(i as int) =~= all);
    chain
}

/// Reads the plain bytes of a snapshot into the store. Where the bytes begin with those of a list
/// of entries, these are read first, and then what follows them.
pub fn load_snapshot(inner: &mut Inner, data: &[u8]) -> (r: Result<(), PersistenceError>)
    requires
        old(inner).wf(),
    ensures
        final(inner).wf(),
        final(inner).same_setup(*old(inner)),
        final(inner)@ == (EngineState {
            store: replay_snapshot(old(inner)@.store, data@).store,
            ..old(inner)@
        }),
        r is Ok == replay_snapshot(old(inner)@.store, data@).ok,
        r matches Err(e) ==> e is Deserialization,
        forall|list: ListingModel|
            starts_with(data@, #[trigger] snapshot_image(list)) ==> replay_snapshot(
                old(inner)@.store,
                data@,
            ) == replay_snapshot(
                load_all(old(inner)@.store, list),
                data@.skip(snapshot_image(list)->0.len() as int),
            ),
        forall|list: ListingModel| #[trigger]
            snapshot_image(list) == Some(data@) ==> r is Ok && final(inner)@.store == load_all(
                old(inner)@.store,
                list,
            ),
{
    let ghost before = inner@;
    let ghost store = before.store;
    let ghost mut i: int = 0;
    let mut pos: usize = 0;
    proof {
        assert(data@.skip(0) =~= data@);
        assert forall|list: ListingModel|
            starts_with(data@, #[trigger] snapshot_image(list)) implies snapshot_on_track(
            list,
            data@,
            store,
            store,
            0,
            0,
        ) by {
            lemma_snapshot_start(list, data@, store);
        }
    }
    loop
        invariant
            before == old(inner)@,
            store == before.store,
            inner.wf(),
            inner.same_setup(*old(inner)),
            inner@ == (EngineState { store: inner@.store, ..before }),
            0 <= pos <= data@.len(),
            i >= 0,
            replay_snapshot(store, data@) == replay_snapshot(
                inner@.store,
                data@.skip(pos as int),
            ),
            forall|list: ListingModel|
                starts_with(data@, #[trigger] snapshot_image(list)) ==> snapshot_on_track(
                    list,
                    data@,
                    store,
                    inner@.store,
                    pos as int,
                    i,
                ),
        decreases data@.len() - pos,
    {
        let rest = slice_subrange(data, pos, data.len());
        assert(rest@ =~= data@.skip(pos as int));
        let read = decode_snapshot_entry(rest);
        proof {
            assert forall|list: ListingModel|
                starts_with(data@, #[trigger] snapshot_image(list)) && i < list.len() implies {
                &&& snapshot_bytes(list[i].0, list[i].1) is Some
                &&& read@ == (SnapshotStep::Entry {
                    key: list[i].0,
                    chain: list[i].1,
                    used: snapshot_bytes(list[i].0, list[i].1)->0.len(),
                })
            } by {
                let left = list.skip(i);
                assert(left[0] == list[i]);
                assert(snapshot_on_track(list, data@, store, inner@.store, pos as int, i));
                lemma_joined_prefix(
                    snapshot_bytes(left[0].0, left[0].1),
                    snapshot_image(left.skip(1)),
                    rest@,
                );
            }
            assert forall|list: ListingModel| #[trigger]
                snapshot_image(list) == Some(data@) && !(read is Entry) implies inner@.store
                == load_all(store, list) && read is End by {
                assert(data@ =~= data@.take(data@.len() as int));
                assert(starts_with(data@, snapshot_image(list)));
                assert(snapshot_on_track(list, data@, store, inner@.store, pos as int, i));
                assert(i == list.len());
                assert(list.skip(i).len() == 0);
                assert(rest@.len() == 0);
            }
        }
        match read {
            SnapshotRead::Entry { key, versions, used } => {
                let ghost k = bytes_view(key);
                let ghost c = pairs_view(versions@);
                let ghost now = inner@.store;
                if versions.len() > 0 {
                    inner.insert_chain(key, collect_versions(&versions));
                }
                proof {
                    assert(rest@.skip(used as int) =~= data@.skip(pos + used));
                    assert(inner@.store == load_entry(now, k, c));
                    let next = inner@.store;
                    assert forall|list: ListingModel|
                        starts_with(
                            data@,
                            #[trigger] snapshot_image(list),
                        ) implies snapshot_on_track(
                        list,
                        data@,
                        store,
                        next,
                        pos + used,
                        i + 1,
                    ) by {
                        lemma_snapshot_step(
                            list,
                            data@,
                            store,
                            now,
                            pos as int,
                            i,
                            k,
                            c,
                            used as nat,
                        );
                    }
                    i = i + 1;
                }
                pos = pos + used;
            },
            SnapshotRead::End => {
                assert forall|list: ListingModel|
                    starts_with(data@, #[trigger] snapshot_image(list)) implies replay_snapshot(
                    store,
                    data@,
                ) == replay_snapshot(
                    load_all(store, list),
                    data@.skip(snapshot_image(list)->0.len() as int),
                ) by {
                    assert(snapshot_on_track(list, data@, store, inner@.store, pos as int, i));
                }
                return Ok(());
            },
            SnapshotRead::Broken(e) => {
                assert forall|list: ListingModel|
                    starts_with(data@, #[trigger] snapshot_image(list)) implies replay_snapshot(
                    store,
                    data@,
                ) == replay_snapshot(
                    load_all(store, list),
                    data@.skip(snapshot_image(list)->0.len() as int),
                ) by {
                    assert(snapshot_on_track(list, data@, store, inner@.store, pos as int, i));
                }
                return Err(PersistenceError::Deserialization(e));
            },
        }
    }
}

/// The bytes of a list of writes begin an input; `i` writes were read from the first `pos` bytes
/// and gave `now`.
spec fn log_on_track(
    records: RecordsModel,
    data: Seq<u8>,
    store: StoreModel,
    now: StoreModel,
    pos: int,
    i: int,
) -> bool {
    &&& i <= records.len() ==> {
        &&& starts_with(data.skip(pos), log_image(records.skip(i)))
        &&& pos + log_image(records.skip(i))->0.len() == log_image(records)->0.len()
        &&& replay_all(store, records) == replay_all(now, records.skip(i))
    }
    &&& i >= records.len() ==> replay_log(store, data) == replay_log(
        replay_all(store, records),
        data.skip(log_image(records)->0.len() as int),
    )
    &&& i > records.len() ==> log_image(records)->0.len() < pos && !torn_record(
        data.skip(log_image(records)->0.len() as int),
    )
}

/// Reading one write stays on track.
proof fn lemma_log_step(
    records: RecordsModel,
    data: Seq<u8>,
    store: StoreModel,
    now: StoreModel,
    pos: int,
    i: int,
    record: (Seq<u8>, u64, Option<Seq<u8>>),
    used: nat,
)
    requires
        0 <= pos,
        0 < used,
        pos + used <= data.len(),
        i >= 0,
        starts_with(data, log_image(records)),
        log_on_track(records, data, store, now, pos, i),
        log_step(data.skip(pos)) == (LogStep::Record {
            key: record.0,
            version: record.1,
            value: record.2,
            used,
        }),
        replay_log(store, data) == replay_log(now, data.skip(pos)),
        i < records.len() ==> {
            &&& records[i] == record
            &&& log_bytes(record.0, record.1, record.2) is Some
            &&& log_bytes(record.0, record.1, record.2)->0.len() == used
        },
        !torn_record(data.skip(pos)),
    ensures
        log_on_track(
            records,
            data,
            store,
            replay_record(now, record.0, record.1, record.2),
            pos + used,
            i + 1,
        ),
{
    let next = replay_record(now, record.0, record.1, record.2);
    assert(data.skip(pos).skip(used as int) =~= data.skip(pos + used));
    assert(replay_log(now, data.skip(pos)) == replay_log(next, data.skip(pos + used)));
    if i < records.len() {
        let left = records.skip(i);
        assert(left.skip(1) =~= records.skip(i + 1));
        assert(left[0] == record);
        assert(replay_all(now, left) == replay_all(next, left.skip(1)));
        lemma_joined_prefix(
            log_bytes(record.0, record.1, record.2),
            log_image(left.skip(1)),
            data.skip(pos),
        );
        if i + 1 == records.len() {
            assert(records.skip(i + 1).len() == 0);
        }
    } else if i == records.len() {
        assert(records.skip(i).len() == 0);
    }
}

/// Where the bytes of a list of writes begin an input, reading starts with them.
proof fn lemma_log_start(records: RecordsModel, data: Seq<u8>, store: StoreModel)
    requires
        starts_with(data, log_image(records)),
    ensures
        log_on_track(records, data, store, store, 0, 0),
{
    assert(data.skip(0) =~= data);
    assert(records.skip(0) =~= records);
}

/// Reads the plain bytes of a log into the store. Where the bytes begin with those of a list of
/// writes, these are read first, and then what follows them.
pub fn load_log(inner: &mut Inner, data: &[u8]) -> (r: Result<(), PersistenceError>)
    requires
        old(inner).wf(),
    ensures
        final(inner).wf(),
        final(inner).same_setup(*old(inner)),
        final(inner)@ == (EngineState {
            store: replay_log(old(inner)@.store, data@).store,
            ..old(inner)@
        }),
        r is Ok == replay_log(old(inner)@.store, data@).ok,
        r matches Err(e) ==> e is Deserialization,
        forall|records: RecordsModel|
            starts_with(data@, #[trigger] log_image(records)) ==> replay_log(
                old(inner)@.store,
                data@,
            ) == replay_log(
                replay_all(old(inner)@.store, records),
                data@.skip(log_image(records)->0.len() as int),
            ),
        forall|records: RecordsModel| #[trigger]
            log_image(records) == Some(data@) ==> r is Ok && final(inner)@.store == replay_all(
                old(inner)@.store,
                records,
            ),
        forall|records: RecordsModel|
            starts_with(data@, #[trigger] log_image(records)) && torn_record(
                data@.skip(log_image(records)->0.len() as int),
            ) ==> r is Ok && final(inner)@.store == replay_all(old(inner)@.store, records),
{
    let ghost before = inner@;
    let ghost store = before.store;
    let ghost mut i: int = 0;
    let mut pos: usize = 0;
    proof {
        assert(data@.skip(0) =~= data@);
        assert forall|records: RecordsModel|
            starts_with(data@, #[trigger] log_image(records)) implies log_on_track(
            records,
            data@,
            store,
            store,
            0,
            0,
        ) by {
            lemma_log_start(records, data@, store);
        }
    }
    loop
        invariant
            before == old(inner)@,
            store == before.store,
            inner.wf(),
            inner.same_setup(*old(inner)),
            inner@ == (EngineState { store: inner@.store, ..before }),
            0 <= pos <= data@.len(),
            i >= 0,
            replay_log(store, data@) == replay_log(inner@.store, data@.skip(pos as int)),
            forall|records: RecordsModel|
                starts_with(data@, #[trigger] log_image(records)) ==> log_on_track(
                    records,
                    data@,
                    store,
                    inner@.store,
                    pos as int,
                    i,
                ),
        decreases data@.len() - pos,
    {
        let rest = slice_subrange(data, pos, data.len());
        assert(rest@ =~= data@.skip(pos as int));
        let read = decode_log_record(rest);
        proof {
            assert forall|records: RecordsModel|
                starts_with(data@, #[trigger] log_image(records)) && i < records.len() implies {
                &&& log_bytes(records[i].0, records[i].1, records[i].2) is Some
                &&& read@ == (LogStep::Record {
                    key: records[i].0,
                    version: records[i].1,
                    value: records[i].2,
                    used: log_bytes(records[i].0, records[i].1, records[i].2)->0.len(),
                })
            } by {
                let left = records.skip(i);
                assert(left[0] == records[i]);
                assert(log_on_track(records, data@, store, inner@.store, pos as int, i));
                lemma_joined_prefix(
                    log_bytes(left[0].0, left[0].1, left[0].2),
                    log_image(left.skip(1)),
                    rest@,
                );
            }
            assert forall|records: RecordsModel| #[trigger]
                log_image(records) == Some(data@) && !(read is Record) implies inner@.store
                == replay_all(store, records) && read is End by {
                assert(data@ =~= data@.take(data@.len() as int));
                assert(starts_with(data@, log_image(records)));
                assert(log_on_track(records, data@, store, inner@.store, pos as int, i));
                assert(i == records.len());
                assert(records.skip(i).len() == 0);
                assert(rest@.len() == 0);
            }
            assert forall|records: RecordsModel|
                starts_with(data@, #[trigger] log_image(records)) && torn_record(
                    data@.skip(log_image(records)->0.len() as int),
                ) && !(read is Record) implies inner@.store == replay_all(store, records)
                && read is End by {
                assert(log_on_track(records, data@, store, inner@.store, pos as int, i));
                assert(i == records.len());
                assert(records.skip(i).len() == 0);
            }
        }
        match read {
            LogRead::Record { key, version, value, used } => {
                let ghost record = (bytes_view(key), version, value_view(value));
                let ghost now = inner@.store;
                inner.write_key(&key, version, &value);
                proof {
                    assert(rest@.skip(used as int) =~= data@.skip(pos + used));
                    let next = inner@.store;
                    assert(next == replay_record(now, record.0, record.1, record.2));
                    assert forall|records: RecordsModel|
                        starts_with(data@, #[trigger] log_image(records)) implies log_on_track(
                        records,
                        data@,
                        store,
                        next,
                        pos + used,
                        i + 1,
                    ) by {
                        lemma_log_step(
                            records,
                            data@,
                            store,
                            now,
                            pos as int,
                            i,
                            record,
                            used as nat,
                        );
                    }
                    i = i + 1;
                }
                pos = pos + used;
            },
            LogRead::End => {
                assert forall|records: RecordsModel|
                    starts_with(data@, #[trigger] log_image(records)) implies replay_log(
                    store,
                    data@,
                ) == replay_log(
                    replay_all(store, records),
                    data@.skip(log_image(records)->0.len() as int),
                ) by {
                    assert(log_on_track(records, data@, store, inner@.store, pos as int, i));
                }
                return Ok(());
            },
            LogRead::Broken(e) => {
                assert forall|records: RecordsModel|
                    starts_with(data@, #[trigger] log_image(records)) implies replay_log(
                    store,
                    data@,
                ) == replay_log(
                    replay_all(store, records),
                    data@.skip(log_image(records)->0.len() as int),
                ) by {
                    assert(log_on_track(records, data@, store, inner@.store, pos as int, i));
                }
                return Err(PersistenceError::Deserialization(e));
            },
        }
    }
}

/// The writes of a commit as bytes, behind those that are in `out` already. On failure some of
/// them may be there.
pub fn encode_writes(version: u64, writeset: &WriteSet, out: &mut Vec<u8>) -> (r: Result<
    (),
    PersistenceError,
>)
    ensures
        match r {
            Ok(_) => joined(
                Some(old(out)@),
                log_image(records_of(version, writeset.list())),
            ) == Some(final(out)@),
            Err(e) => log_image(records_of(version, writeset.list())) is None && e is Serialization,
        },
{
    let n: usize = writeset.len();
    let ghost records = records_of(version, writeset.list());
    let mut i: usize = 0;
    proof {
        assert(records.skip(0) =~= records);
    }
    while i < n
        invariant
            i <= n == records.len(),
            n == writeset.list().len(),
            records == records_of(version, writeset.list()),
            joined(Some(old(out)@), log_image(records)) == joined(
                Some(out@),
                log_image(records.skip(i as int)),
            ),
        decreases n - i,
    {
        let ghost left = records.skip(i as int);
        let ghost before = out@;
        proof {
            assert(left.skip(1) =~= records.skip(i + 1));
            assert(left[0] == records[i as int]);
        }
        match encode_log_record(writeset.key_at(i), version, writeset.value_at(i)) {
            Ok(b) => {
                out.extend_from_slice(b.as_slice());
                proof {
                    lemma_joined_step(Some(before), Some(b@), log_image(left.skip(1)));
                    assert(out@ =~= before + b@);
                }
            },
            Err(e) => {
                return Err(PersistenceError::Serialization(e));
            },
        }
        i += 1;
    }
    proof {
        assert(records.skip(i as int).len() == 0);
        assert(out@ + Seq::<u8>::empty() =~= out@);
    }
    Ok(())
}

/// Reads a snapshot file and a log file into the store, the snapshot first; either may be missing
/// or empty.
pub fn load(inner: &mut Inner, snapshot: Option<&[u8]>, log: Option<&[u8]>) -> (r: Result<
    (),
    PersistenceError,
>)
    requires
        old(inner).wf(),
    ensures
        final(inner).wf(),
        final(inner).same_setup(*old(inner)),
        final(inner)@ == (EngineState {
            store: restore(old(inner)@.store, file_view(snapshot), file_view(log)).store,
            ..old(inner)@
        }),
        r is Ok == restore(old(inner)@.store, file_view(snapshot), file_view(log)).ok,
        r matches Err(e) ==> e is Deserialization,
        forall|list: ListingModel, mode: CompressionMode, records: RecordsModel|
            #[trigger] holds_snapshot(file_view(snapshot), list, mode) && #[trigger] holds_log(
                file_view(log),
                records,
            ) ==> r is Ok && final(inner)@.store == replay_all(
                load_all(old(inner)@.store, list),
                records,
            ),
{
    if let Some(data) = snapshot {
        if data.len() > 0 {
            match read_packed(data) {
                Ok(plain) => {
                    match load_snapshot(inner, plain.as_slice()) {
                        Ok(_) => {},
                        Err(e) => {
                            return Err(e);
                        },
                    }
                },
                Err(e) => {
                    return Err(PersistenceError::Deserialization(e));
                },
            }
        }
    }
    if let Some(data) = log {
        if data.len() > 0 {
            match read_packed(data) {
                Ok(plain) => {
                    return load_log(inner, plain.as_slice());
                },
                Err(e) => {
                    return Err(PersistenceError::Deserialization(e));
                },
            }
        }
    }
    Ok(())
}

} // verus!
