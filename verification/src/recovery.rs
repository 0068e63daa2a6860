//! What holds of snapshots and logs: reading them back gives the store that was written.

use vstd::prelude::*;

use crate::chain::{
    chain_push, chain_push_all, chain_sorted, chain_within, law_read_after_push, lemma_lte_index,
    lemma_lte_index_unique, lemma_push_all_sorted, lemma_reads_settle, lte_index, read_at,
    ChainModel,
};
use crate::inner::{lemma_store_write_sorted, lemma_store_write_step};
use crate::kv::{lemma_lex_irreflexive, lex_lt};
use crate::model::{
    key_write, store_read, store_sorted, store_write, EngineState, StoreModel, TxState, WritesModel,
};
use crate::persistence::batch_records;
use crate::replay::{
    is_listing, load_all, load_entry, nonempty, records_of, replay_all, replay_record,
    ListingModel, RecordsModel,
};
use crate::writeset::{entries_sorted, lemma_map_of, map_of, EntriesModel};

verus! {

/// Two stores are read alike, under every key and at every version.
pub open spec fn reads_alike(a: StoreModel, b: StoreModel) -> bool {
    forall|k: Seq<u8>, t: int| #[trigger] store_read(a, k, t) == store_read(b, k, t)
}

/// Every version in a chain lies below `v`.
pub open spec fn chain_below(c: ChainModel, v: u64) -> bool {
    forall|i: int| 0 <= i < c.len() ==> (#[trigger] c[i]).0 < v
}

/// Every version in a store lies below `v`.
pub open spec fn store_below(store: StoreModel, v: u64) -> bool {
    forall|k: Seq<u8>| #[trigger] store.contains_key(k) ==> chain_below(store[k], v)
}

/// A write above a chain keeps it below what lies above the write.
proof fn lemma_push_below(c: ChainModel, version: u64, value: Option<Seq<u8>>, top: u64)
    requires
        chain_sorted(c),
        chain_below(c, version),
        version < top,
    ensures
        chain_below(chain_push(c, version, value), top),
{
    lemma_lte_index(c, version as int);
}

/// Above all versions of a chain there is nothing but a write.
proof fn lemma_push_on_top(c: ChainModel, version: u64, value: Option<Seq<u8>>, t: int)
    requires
        chain_sorted(c),
        chain_below(c, version),
    ensures
        read_at(chain_push(c, version, value), t) == (if t < version {
            read_at(c, t)
        } else {
            value
        }),
{
    law_read_after_push(c, version, value, t);
    if t >= version {
        assert(c.len() > 0 ==> c[c.len() - 1].0 < version);
        lemma_lte_index_unique(c, version as int, c.len() as int);
        lemma_lte_index_unique(c, t, c.len() as int);
    }
}

/// A sorted chain that is written out version by version reads the same, and has no versions that
/// it had not.
proof fn lemma_push_all_reads(c: ChainModel)
    requires
        chain_sorted(c),
    ensures
        chain_sorted(chain_push_all(Seq::empty(), c)),
        forall|v: u64| chain_below(c, v) ==> #[trigger] chain_below(
            chain_push_all(Seq::empty(), c),
            v,
        ),
        forall|t: int| #[trigger]
            read_at(chain_push_all(Seq::empty(), c), t) == read_at(c, t),
    decreases c.len(),
{
    let p = chain_push_all(Seq::empty(), c);
    lemma_push_all_sorted(Seq::empty(), c);
    if c.len() > 0 {
        let d = c.drop_last();
        let q = chain_push_all(Seq::empty(), d);
        let (version, value) = c.last();
        assert(chain_sorted(d)) by {
            assert forall|i: int, j: int| 0 <= i < j < d.len() implies d[i].0 < d[j].0 by {
                assert(c[i].0 < c[j].0);
            }
        }
        lemma_push_all_reads(d);
        assert(chain_below(d, version)) by {
            assert forall|i: int| 0 <= i < d.len() implies (#[trigger] d[i]).0 < version by {
                assert(c[i].0 < c[c.len() - 1].0);
            }
        }
        assert(chain_below(q, version));
        assert forall|v: u64| chain_below(c, v) implies #[trigger] chain_below(p, v) by {
            assert(c[c.len() - 1].0 < v);
            lemma_push_below(q, version, value, v);
        }
        assert forall|t: int| #[trigger] read_at(p, t) == read_at(c, t) by {
            lemma_push_on_top(q, version, value, t);
            if t < version {
                assert(read_at(q, t) == read_at(d, t));
                assert(lte_index(c, t) == lte_index(d, t));
                lemma_lte_index(d, t);
            } else {
                lemma_lte_index_unique(c, t, c.len() as int);
            }
        }
    } else {
        assert(p =~= Seq::empty());
        assert(c =~= Seq::empty());
    }
}

/// What `nonempty` keeps: the entries whose chain is not empty, in their order.
proof fn lemma_nonempty(list: ListingModel)
    requires
        forall|i: int, j: int|
            0 <= i < j < list.len() ==> lex_lt(#[trigger] list[i].0, #[trigger] list[j].0),
    ensures
        forall|i: int, j: int|
            0 <= i < j < nonempty(list).len() ==> lex_lt(
                #[trigger] nonempty(list)[i].0,
                #[trigger] nonempty(list)[j].0,
            ),
        forall|i: int|
            0 <= i < nonempty(list).len() ==> (#[trigger] nonempty(list)[i]).1.len() > 0
                && list.contains(nonempty(list)[i]),
        forall|i: int|
            0 <= i < list.len() && (#[trigger] list[i]).1.len() > 0 ==> nonempty(list).contains(
                list[i],
            ),
    decreases list.len(),
{
    if list.len() > 0 {
        let rest = list.skip(1);
        let ne = nonempty(rest);
        let out = nonempty(list);
        assert forall|i: int, j: int| 0 <= i < j < rest.len() implies lex_lt(
            #[trigger] rest[i].0,
            #[trigger] rest[j].0,
        ) by {
            assert(lex_lt(list[i + 1].0, list[j + 1].0));
        }
        lemma_nonempty(rest);
        assert forall|i: int| 0 <= i < ne.len() implies list.contains(#[trigger] ne[i]) && lex_lt(
            list[0].0,
            ne[i].0,
        ) by {
            assert(rest.contains(ne[i]));
            let j = choose|j: int| 0 <= j < rest.len() && rest[j] == ne[i];
            assert(list[j + 1] == ne[i]);
            assert(lex_lt(list[0].0, list[j + 1].0));
        }
        if list[0].1.len() > 0 {
            assert(out =~= seq![list[0]] + ne);
            assert forall|i: int, j: int| 0 <= i < j < out.len() implies lex_lt(
                #[trigger] out[i].0,
                #[trigger] out[j].0,
            ) by {
                assert(out[j] == ne[j - 1]);
                if i > 0 {
                    assert(out[i] == ne[i - 1]);
                    assert(lex_lt(ne[i - 1].0, ne[j - 1].0));
                }
            }
            assert forall|i: int| 0 <= i < out.len() implies (#[trigger] out[i]).1.len() > 0
                && list.contains(out[i]) by {
                if i > 0 {
                    assert(out[i] == ne[i - 1]);
                } else {
                    assert(out[0] == list[0]);
                }
            }
            assert forall|i: int| 0 <= i < list.len() && (#[trigger] list[i]).1.len()
                > 0 implies out.contains(list[i]) by {
                if i == 0 {
                    assert(out[0] == list[0]);
                } else {
                    assert(rest[i - 1] == list[i]);
                    assert(ne.contains(rest[i - 1]));
                    let j = choose|j: int| 0 <= j < ne.len() && ne[j] == rest[i - 1];
                    assert(out[j + 1] == list[i]);
                }
            }
        } else {
            assert forall|i: int| 0 <= i < list.len() && (#[trigger] list[i]).1.len()
                > 0 implies out.contains(list[i]) by {
                assert(rest[i - 1] == list[i]);
            }
        }
    }
}

/// What reading a list of entries with different keys gives.
proof fn lemma_load_all(store: StoreModel, list: ListingModel)
    requires
        forall|i: int, j: int|
            0 <= i < j < list.len() ==> lex_lt(#[trigger] list[i].0, #[trigger] list[j].0),
        forall|i: int| 0 <= i < list.len() ==> (#[trigger] list[i]).1.len() > 0,
    ensures
        forall|k: Seq<u8>| #[trigger]
            load_all(store, list).contains_key(k) <==> store.contains_key(k) || exists|i: int|
                0 <= i < list.len() && #[trigger] list[i].0 == k,
        forall|i: int|
            0 <= i < list.len() ==> load_all(store, list)[#[trigger] list[i].0] == chain_push_all(
                Seq::empty(),
                list[i].1,
            ),
        forall|k: Seq<u8>|
            (forall|i: int| 0 <= i < list.len() ==> #[trigger] list[i].0 != k)
                && store.contains_key(k) ==> #[trigger] load_all(store, list)[k] == store[k],
    decreases list.len(),
{
    if list.len() > 0 {
        let rest = list.skip(1);
        let next = load_entry(store, list[0].0, list[0].1);
        assert forall|i: int, j: int| 0 <= i < j < rest.len() implies lex_lt(
            #[trigger] rest[i].0,
            #[trigger] rest[j].0,
        ) by {
            assert(lex_lt(list[i + 1].0, list[j + 1].0));
        }
        assert forall|i: int| 0 <= i < rest.len() implies (#[trigger] rest[i]).1.len() > 0 by {
            assert(rest[i] == list[i + 1]);
        }
        lemma_load_all(next, rest);
        let out = load_all(store, list);
        assert(out == load_all(next, rest));
        assert forall|i: int| 0 <= i < rest.len() implies #[trigger] rest[i].0 != list[0].0 by {
            assert(lex_lt(list[0].0, list[i + 1].0));
            lemma_lex_irreflexive(list[0].0);
        }
        assert forall|k: Seq<u8>| #[trigger] out.contains_key(k) <==> store.contains_key(k)
            || exists|i: int| 0 <= i < list.len() && #[trigger] list[i].0 == k by {
            if exists|i: int| 0 <= i < rest.len() && #[trigger] rest[i].0 == k {
                let i = choose|i: int| 0 <= i < rest.len() && #[trigger] rest[i].0 == k;
                assert(list[i + 1].0 == k);
            }
            if exists|i: int| 0 <= i < list.len() && #[trigger] list[i].0 == k {
                let i = choose|i: int| 0 <= i < list.len() && #[trigger] list[i].0 == k;
                if i > 0 {
                    assert(rest[i - 1].0 == k);
                }
            }
            if k == list[0].0 {
                assert(next.contains_key(k));
            }
        }
        assert forall|i: int| 0 <= i < list.len() implies out[#[trigger] list[i].0]
            == chain_push_all(Seq::empty(), list[i].1) by {
            if i > 0 {
                assert(rest[i - 1] == list[i]);
                assert(out[rest[i - 1].0] == chain_push_all(Seq::empty(), rest[i - 1].1));
            } else {
                assert(next.contains_key(list[0].0));
                assert(out[list[0].0] == next[list[0].0]);
            }
        }
        assert forall|k: Seq<u8>|
            (forall|i: int| 0 <= i < list.len() ==> #[trigger] list[i].0 != k)
                && store.contains_key(k) implies #[trigger] out[k] == store[k] by {
            assert(list[0].0 != k);
            assert forall|i: int| 0 <= i < rest.len() implies #[trigger] rest[i].0 != k by {
                assert(list[i + 1].0 != k);
            }
            assert(next.contains_key(k));
        }
    }
}

/// A snapshot restores every read: the store that is read back from the entries of a store is
/// read alike, under every key and at every version.
pub proof fn law_snapshot_restores_reads(store: StoreModel, list: ListingModel)
    requires
        store_sorted(store),
        is_listing(list, store),
    ensures
        reads_alike(load_all(Map::empty(), nonempty(list)), store),
        store_sorted(load_all(Map::empty(), nonempty(list))),
        forall|v: u64|
            store_below(store, v) ==> #[trigger] store_below(
                load_all(Map::empty(), nonempty(list)),
                v,
            ),
{
    let kept = nonempty(list);
    let out = load_all(Map::empty(), kept);
    lemma_nonempty(list);
    lemma_load_all(Map::empty(), kept);
    assert forall|k: Seq<u8>| #[trigger] out.contains_key(k) implies store.contains_key(k)
        && out[k] == chain_push_all(Seq::empty(), store[k]) by {
        let i = choose|i: int| 0 <= i < kept.len() && #[trigger] kept[i].0 == k;
        assert(list.contains(kept[i]));
        let j = choose|j: int| 0 <= j < list.len() && list[j] == kept[i];
        assert(store.contains_key(list[j].0));
        assert(out[kept[i].0] == chain_push_all(Seq::empty(), kept[i].1));
    }
    assert forall|k: Seq<u8>, t: int| #[trigger] store_read(out, k, t) == store_read(
        store,
        k,
        t,
    ) by {
        if store.contains_key(k) {
            lemma_push_all_reads(store[k]);
            if !out.contains_key(k) {
                let j = choose|j: int| 0 <= j < list.len() && #[trigger] list[j].0 == k;
                assert(store[list[j].0] == list[j].1);
                if list[j].1.len() > 0 {
                    assert(kept.contains(list[j]));
                    let i = choose|i: int| 0 <= i < kept.len() && kept[i] == list[j];
                    assert(kept[i].0 == k);
                }
                assert(store[k].len() == 0);
            } else {
                assert(read_at(out[k], t) == read_at(store[k], t));
            }
        }
    }
    assert forall|k: Seq<u8>| #[trigger] out.contains_key(k) implies chain_sorted(out[k]) by {
        lemma_push_all_reads(store[k]);
    }
    assert forall|v: u64| store_below(store, v) implies #[trigger] store_below(out, v) by {
        assert forall|k: Seq<u8>| #[trigger] out.contains_key(k) implies chain_below(out[k], v) by {
            lemma_push_all_reads(store[k]);
            assert(chain_below(store[k], v));
        }
    }
}

/// Reading one more write.
proof fn lemma_replay_push(
    store: StoreModel,
    records: RecordsModel,
    r: (Seq<u8>, u64, Option<Seq<u8>>),
)
    ensures
        replay_all(store, records.push(r)) == replay_record(
            replay_all(store, records),
            r.0,
            r.1,
            r.2,
        ),
    decreases records.len(),
{
    let all = records.push(r);
    if records.len() == 0 {
        assert(all.skip(1).len() == 0);
        assert(all[0] == r);
        assert(replay_all(replay_record(store, r.0, r.1, r.2), all.skip(1)) == replay_record(
            store,
            r.0,
            r.1,
            r.2,
        ));
    } else {
        let next = replay_record(store, records[0].0, records[0].1, records[0].2);
        assert(all[0] == records[0]);
        assert(all.skip(1) =~= records.skip(1).push(r));
        lemma_replay_push(next, records.skip(1), r);
    }
}

/// Reading some writes and then others.
pub proof fn lemma_replay_concat(store: StoreModel, a: RecordsModel, b: RecordsModel)
    ensures
        replay_all(store, a + b) == replay_all(replay_all(store, a), b),
    decreases a.len(),
{
    if a.len() == 0 {
        assert(a + b =~= b);
    } else {
        let next = replay_record(store, a[0].0, a[0].1, a[0].2);
        assert((a + b)[0] == a[0]);
        assert((a + b).skip(1) =~= a.skip(1) + b);
        lemma_replay_concat(next, a.skip(1), b);
    }
}

/// The log of a commit does to the store what the commit did.
pub proof fn law_log_replays_commit(store: StoreModel, version: u64, list: EntriesModel)
    requires
        entries_sorted(list),
    ensures
        replay_all(store, records_of(version, list)) == store_write(store, version, map_of(list)),
    decreases list.len(),
{
    let records = records_of(version, list);
    if list.len() == 0 {
        assert(store_write(store, version, map_of(list)) =~= store);
    } else {
        let d = list.drop_last();
        let last = list.last();
        assert(entries_sorted(d)) by {
            assert forall|i: int, j: int| 0 <= i < j < d.len() implies lex_lt(
                #[trigger] d[i].0,
                #[trigger] d[j].0,
            ) by {
                assert(lex_lt(list[i].0, list[j].0));
            }
        }
        law_log_replays_commit(store, version, d);
        lemma_map_of(d);
        if map_of(d).contains_key(last.0) {
            let i = choose|i: int| 0 <= i < d.len() && #[trigger] d[i].0 == last.0;
            assert(lex_lt(list[i].0, list[list.len() - 1].0));
            lemma_lex_irreflexive(last.0);
        }
        assert(records =~= records_of(version, d).push((last.0, version, last.1)));
        lemma_replay_push(store, records_of(version, d), (last.0, version, last.1));
        lemma_store_write_step(store, version, map_of(d), last.0, last.1);
    }
}

/// The store after a run of commits.
pub open spec fn apply_commits(store: StoreModel, commits: Seq<(u64, EntriesModel)>) -> StoreModel
    decreases commits.len(),
{
    if commits.len() == 0 {
        store
    } else {
        apply_commits(
            store_write(store, commits[0].0, map_of(commits[0].1)),
            commits.skip(1),
        )
    }
}

/// Stores that are read alike are read alike after the same commit, if it lies above all that
/// they hold.
proof fn lemma_write_alike(a: StoreModel, b: StoreModel, version: u64, writes: WritesModel)
    requires
        store_sorted(a),
        store_sorted(b),
        store_below(a, version),
        store_below(b, version),
        reads_alike(a, b),
    ensures
        reads_alike(store_write(a, version, writes), store_write(b, version, writes)),
{
    let x = store_write(a, version, writes);
    let y = store_write(b, version, writes);
    assert forall|k: Seq<u8>, t: int| #[trigger] store_read(x, k, t) == store_read(y, k, t) by {
        assert(store_read(a, k, t) == store_read(b, k, t));
        if writes.contains_key(k) {
            lemma_key_write_read(a, version, writes[k], k, t);
            lemma_key_write_read(b, version, writes[k], k, t);
        }
    }
}

/// What is read under a key after a write above all that the store holds.
proof fn lemma_key_write_read(
    store: StoreModel,
    version: u64,
    value: Option<Seq<u8>>,
    k: Seq<u8>,
    t: int,
)
    requires
        store_sorted(store),
        store_below(store, version),
    ensures
        read_at(key_write(store, k, version, value), t) == (if t < version {
            store_read(store, k, t)
        } else {
            value
        }),
{
    if store.contains_key(k) {
        lemma_push_on_top(store[k], version, value, t);
    } else {
        let c: ChainModel = seq![(version, value)];
        if t < version {
            lemma_lte_index_unique(c, t, 0);
        } else {
            lemma_lte_index_unique(c, t, 1);
        }
    }
}

/// A commit above all that a store holds keeps it below what lies above the commit.
pub proof fn lemma_write_below(store: StoreModel, version: u64, writes: WritesModel, top: u64)
    requires
        store_sorted(store),
        store_below(store, version),
        version < top,
    ensures
        store_below(store_write(store, version, writes), top),
{
    let x = store_write(store, version, writes);
    assert forall|k: Seq<u8>| #[trigger] x.contains_key(k) implies chain_below(x[k], top) by {
        if store.contains_key(k) {
            assert(chain_below(store[k], version));
            if writes.contains_key(k) {
                lemma_push_below(store[k], version, writes[k], top);
            } else {
                assert forall|i: int| 0 <= i < x[k].len() implies (#[trigger] x[k][i]).0 < top by {
                    assert(store[k][i].0 < version);
                }
            }
        }
    }
}

/// Commits as a log holds them: each with its writes in order, and versions that ascend.
pub open spec fn commits_in_order(commits: Seq<(u64, EntriesModel)>) -> bool {
    &&& forall|i: int| 0 <= i < commits.len() ==> entries_sorted((#[trigger] commits[i]).1)
    &&& forall|i: int, j: int|
        0 <= i < j < commits.len() ==> (#[trigger] commits[i]).0 < (#[trigger] commits[j]).0
}

/// Replaying a log over a store that is read alike gives a store that is read alike.
pub proof fn lemma_replay_alike(a: StoreModel, b: StoreModel, commits: Seq<(u64, EntriesModel)>)
    requires
        store_sorted(a),
        store_sorted(b),
        reads_alike(a, b),
        commits_in_order(commits),
        commits.len() > 0 ==> store_below(a, commits[0].0) && store_below(b, commits[0].0),
    ensures
        reads_alike(replay_all(a, batch_records(commits)), apply_commits(b, commits)),
    decreases commits.len(),
{
    if commits.len() > 0 {
        let (version, list) = commits[0];
        let rest = commits.skip(1);
        let writes = map_of(list);
        assert(entries_sorted(commits[0].1));
        lemma_replay_concat(a, records_of(version, list), batch_records(rest));
        law_log_replays_commit(a, version, list);
        lemma_write_alike(a, b, version, writes);
        lemma_store_write_sorted(a, version, writes);
        lemma_store_write_sorted(b, version, writes);
        assert(commits_in_order(rest)) by {
            assert forall|i: int| 0 <= i < rest.len() implies entries_sorted(
                (#[trigger] rest[i]).1,
            ) by {
                assert(rest[i] == commits[i + 1]);
            }
            assert forall|i: int, j: int| 0 <= i < j < rest.len() implies (#[trigger] rest[i]).0 < (
            #[trigger] rest[j]).0 by {
                assert(commits[i + 1].0 < commits[j + 1].0);
            }
        }
        if rest.len() > 0 {
            assert(rest[0] == commits[1]);
            assert(commits[0].0 < commits[1].0);
            lemma_write_below(a, version, writes, rest[0].0);
            lemma_write_below(b, version, writes, rest[0].0);
        }
        lemma_replay_alike(
            store_write(a, version, writes),
            store_write(b, version, writes),
            rest,
        );
    }
}

/// Recovery loses nothing: a snapshot, and the log of the commits since it was taken, give a
/// store that is read as the one was that the commits went to, under every key and at every
/// version.
pub proof fn law_recovery_restores_reads(
    store: StoreModel,
    list: ListingModel,
    commits: Seq<(u64, EntriesModel)>,
)
    requires
        store_sorted(store),
        is_listing(list, store),
        commits_in_order(commits),
        commits.len() > 0 ==> store_below(store, commits[0].0),
    ensures
        reads_alike(
            replay_all(load_all(Map::empty(), nonempty(list)), batch_records(commits)),
            apply_commits(store, commits),
        ),
{
    law_snapshot_restores_reads(store, list);
    let loaded = load_all(Map::empty(), nonempty(list));
    if commits.len() > 0 {
        assert(store_below(loaded, commits[0].0));
    }
    lemma_replay_alike(loaded, store, commits);
}

/// Replaying a commit that a store holds already does no harm: where the writes are what is read
/// at their version, every read stays as it was.
pub proof fn law_replaying_twice_is_harmless(store: StoreModel, version: u64, list: EntriesModel)
    requires
        store_sorted(store),
        entries_sorted(list),
        forall|i: int|
            0 <= i < list.len() ==> store_read(store, (#[trigger] list[i]).0, version as int)
                == list[i].1,
    ensures
        reads_alike(replay_all(store, records_of(version, list)), store),
{
    law_log_replays_commit(store, version, list);
    lemma_map_of(list);
    let writes = map_of(list);
    let after = store_write(store, version, writes);
    assert forall|k: Seq<u8>, t: int| #[trigger] store_read(after, k, t) == store_read(
        store,
        k,
        t,
    ) by {
        if writes.contains_key(k) {
            let i = choose|i: int| 0 <= i < list.len() && #[trigger] list[i].0 == k;
            assert(store_read(store, list[i].0, version as int) == list[i].1);
            assert(writes[k] == list[i].1);
            if store.contains_key(k) {
                lemma_lte_index(store[k], version as int);
                assert(chain_push(store[k], version, writes[k]) == store[k]);
            } else {
                let c: ChainModel = seq![(version, None)];
                assert(after[k] == c);
                if t < version {
                    lemma_lte_index_unique(c, t, 0);
                } else {
                    lemma_lte_index_unique(c, t, 1);
                }
            }
        }
    }
}

/// A transaction that begins after recovery reads what one would have read that had begun right
/// before: every commit that had ended. That is where the clock has not fallen behind the versions
/// that were handed out.
pub proof fn law_recovered_is_seen(
    s: EngineState,
    recovered: StoreModel,
    timestamp: u64,
    write: bool,
    key: Seq<u8>,
)
    requires
        reads_alike(recovered, s.store),
        s.store.contains_key(key) ==> chain_within(s.store[key], s.timestamp),
        s.merges.dom() == Set::<u64>::empty(),
        s.timestamp <= timestamp,
    ensures
        ({
            let after = EngineState { store: recovered, ..EngineState::fresh(timestamp) };
            after.read(TxState::opened(after, write), key) == s.read(TxState::opened(s, write), key)
        }),
{
    let after = EngineState { store: recovered, ..EngineState::fresh(timestamp) };
    assert forall|v: u64| !s.merges.contains_key(v) by {
        assert(!s.merges.dom().contains(v));
    }
    crate::laws::lemma_nothing_pending(s.merges, key, s.timestamp as int);
    crate::laws::lemma_nothing_pending(after.merges, key, timestamp as int);
    assert(store_read(recovered, key, timestamp as int) == store_read(
        s.store,
        key,
        timestamp as int,
    ));
    if s.store.contains_key(key) {
        lemma_reads_settle(s.store[key], s.timestamp as int);
        lemma_reads_settle(s.store[key], timestamp as int);
    }
}

} // verus!
