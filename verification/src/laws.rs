//! What holds of the engine as a whole.

use vstd::prelude::*;

use crate::chain::{
    chain_gc, chain_push, chain_sorted, chain_within, law_gc_keeps_reads, law_read_after_push,
    lemma_lte_index, lemma_reads_settle, lte_index, read_at, ChainModel,
};
use crate::inner::{lemma_earliest_exists, registers};
use crate::model::{
    active, chains_under, count_of, counted_down, counted_up, earliest, is_earliest, min2, pending,
    reads_clash, store_gc, store_gc_keys, store_read, store_sorted, store_write, verdict_from,
    writes_clash, written_after, EngineState, Footprint, FormerModel, Outcome, StoreModel, TxState,
    Verdict, WritesModel,
};
use crate::tx::lemma_verdict_agrees;

verus! {

/// Of two merge queues that agree up to `t`, the same is pending at `t`.
proof fn lemma_pending_agrees(
    a: Map<u64, (u64, WritesModel)>,
    b: Map<u64, (u64, WritesModel)>,
    key: Seq<u8>,
    t: int,
)
    requires
        t <= u64::MAX,
        forall|v: u64|
            v <= t ==> #[trigger] a.contains_key(v) == b.contains_key(v) && (a.contains_key(v)
                ==> a[v] == b[v]),
    ensures
        pending(a, key, t) == pending(b, key, t),
    decreases t + 1,
{
    if t >= 0 {
        assert(a.contains_key(t as u64) == b.contains_key(t as u64));
        lemma_pending_agrees(a, b, key, t - 1);
    }
}

/// Where no record of a merge queue writes a key, nothing is pending for it.
pub proof fn lemma_nothing_pending(m: Map<u64, (u64, WritesModel)>, key: Seq<u8>, t: int)
    requires
        t <= u64::MAX,
        forall|v: u64| #[trigger] m.contains_key(v) ==> !m[v].1.contains_key(key),
    ensures
        pending(m, key, t) is None,
    decreases t + 1,
{
    if t >= 0 {
        assert(m.contains_key(t as u64) ==> !m[t as u64].1.contains_key(key));
        lemma_nothing_pending(m, key, t - 1);
    }
}

/// A write at a later version changes no read of the store.
pub proof fn lemma_write_keeps_reads(
    store: StoreModel,
    version: u64,
    writes: WritesModel,
    key: Seq<u8>,
    t: int,
)
    requires
        store_sorted(store),
        t < version,
    ensures
        store_read(store_write(store, version, writes), key, t) == store_read(store, key, t),
{
    let after = store_write(store, version, writes);
    if writes.contains_key(key) {
        if store.contains_key(key) {
            law_read_after_push(store[key], version, writes[key], t);
        } else {
            let c: ChainModel = seq![(version, writes[key])];
            assert(after[key] == c);
            assert(c.last().0 > t);
            assert(c.drop_last().len() == 0);
            assert(lte_index(c.drop_last(), t) == 0);
            assert(lte_index(c, t) == 0);
        }
    }
}

/// A write is what is read at its version.
pub proof fn lemma_write_is_read(store: StoreModel, version: u64, writes: WritesModel, key: Seq<u8>)
    requires
        store_sorted(store),
        writes.contains_key(key),
    ensures
        store_read(store_write(store, version, writes), key, version as int) == writes[key],
{
    if store.contains_key(key) {
        law_read_after_push(store[key], version, writes[key], version as int);
    } else {
        let c: ChainModel = seq![(version, writes[key])];
        assert(c.last().0 == version);
    }
}

/// Collecting at `ts` changes no read of the store at `ts` or later.
pub proof fn law_collection_keeps_reads(
    store: StoreModel,
    keys: Set<Seq<u8>>,
    ts: u64,
    key: Seq<u8>,
    t: int,
)
    requires
        store_sorted(store),
        t >= ts,
    ensures
        store_read(store_gc(store, ts), key, t) == store_read(store, key, t),
        store_read(store_gc_keys(store, keys, ts), key, t) == store_read(store, key, t),
{
    if store.contains_key(key) {
        law_gc_keeps_reads(store[key], ts, t);
    }
}

/// A collection never reaches above the version of an open transaction, nor above the highest
/// version handed out.
pub proof fn law_collection_spares_the_open(s: EngineState, tx: TxState, now: u64)
    requires
        s.wf(),
        s.registered(tx),
    ensures
        s.cleanup_ts(now) <= tx.version,
        s.cleanup_ts(now) <= s.timestamp,
{
    assert(active(s.by_oracle, tx.version));
    lemma_earliest_exists(s.by_oracle, tx.version);
    let k = choose|k: u64| is_earliest(s.by_oracle, k);
    assert(is_earliest(s.by_oracle, k));
}

/// What is read at `t` under keys with the chains of `former`, is read in the store, too.
pub open spec fn former_alike(store: StoreModel, former: FormerModel, t: int) -> bool {
    forall|k: Seq<u8>| #[trigger]
        former.contains_key(k) ==> store_read(store, k, t) == (match former[k] {
            Some(c) => read_at(c, t),
            None => None,
        })
}

/// What can happen to the engine while a transaction at version `t` is open.
pub open spec fn steps_to(s: EngineState, after: EngineState, t: u64) -> bool {
    ||| after == s.begun()
    ||| exists|other: TxState| s.registered(other) && after == #[trigger] s.released(other)
    ||| exists|other: TxState, keys: Seq<Seq<u8>>, now: u64|
        s.can_commit() && after == #[trigger] s.commit_started(other, keys, now)
    ||| exists|other: TxState, keys: Seq<Seq<u8>>, now: u64|
        s.can_commit() && after == #[trigger] s.committed(other, keys, now)
    ||| exists|version: u64| version > t && after == #[trigger] s.merged(version)
    ||| exists|number: u64, version: u64, former: FormerModel|
        version > t && former_alike(s.store, former, t as int) && after
            == #[trigger] s.rolled_back(number, version, former)
    ||| exists|keys: Seq<Seq<u8>>, now: u64|
        s.can_commit() && after == #[trigger] s.unlogged(keys, now)
    ||| after == s.cleaned()
    ||| exists|now: u64| after == s.gced(#[trigger] s.cleanup_ts(now))
    ||| exists|now: u64|
        after == s.floored(#[trigger] s.cleanup_ts(now)).collected_dirty(s.cleanup_ts(now))
}

/// A step changes nothing that an open transaction reads in the store.
proof fn lemma_step_keeps_store_reads(
    s: EngineState,
    after: EngineState,
    tx: TxState,
    key: Seq<u8>,
)
    requires
        s.wf(),
        s.registered(tx),
        steps_to(s, after, tx.version),
    ensures
        store_read(after.store, key, tx.version as int) == store_read(
            s.store,
            key,
            tx.version as int,
        ),
{
    let t = tx.version as int;
    if exists|other: TxState, keys: Seq<Seq<u8>>, now: u64|
        s.can_commit() && after == #[trigger] s.commit_started(other, keys, now) {
        let (other, keys, now) = choose|other: TxState, keys: Seq<Seq<u8>>, now: u64|
            s.can_commit() && after == #[trigger] s.commit_started(other, keys, now);
        lemma_write_keeps_reads(s.store, s.next_version(now), other.writes, key, t);
    } else if exists|other: TxState, keys: Seq<Seq<u8>>, now: u64|
        s.can_commit() && after == #[trigger] s.committed(other, keys, now) {
        let (other, keys, now) = choose|other: TxState, keys: Seq<Seq<u8>>, now: u64|
            s.can_commit() && after == #[trigger] s.committed(other, keys, now);
        lemma_write_keeps_reads(s.store, s.next_version(now), other.writes, key, t);
    } else if exists|now: u64| after == s.gced(#[trigger] s.cleanup_ts(now)) {
        let now = choose|now: u64| after == s.gced(#[trigger] s.cleanup_ts(now));
        law_collection_spares_the_open(s, tx, now);
        law_collection_keeps_reads(s.store, s.dirty.to_set(), s.cleanup_ts(now), key, t);
    } else if exists|now: u64|
        after == s.floored(#[trigger] s.cleanup_ts(now)).collected_dirty(s.cleanup_ts(now)) {
        let now = choose|now: u64|
            after == s.floored(#[trigger] s.cleanup_ts(now)).collected_dirty(s.cleanup_ts(now));
        law_collection_spares_the_open(s, tx, now);
        law_collection_keeps_reads(s.store, s.dirty.to_set(), s.cleanup_ts(now), key, t);
    }
}

/// An open transaction reads the same before and after whatever others do: begin, commit, go
/// back, finish later commits or take them back, clean and collect.
pub proof fn law_reads_repeat(s: EngineState, after: EngineState, tx: TxState, key: Seq<u8>)
    requires
        s.wf(),
        s.registered(tx),
        steps_to(s, after, tx.version),
    ensures
        after.read(tx, key) == s.read(tx, key),
{
    let t = tx.version;
    assert(t <= s.timestamp);
    lemma_step_keeps_store_reads(s, after, tx, key);
    assert(after.visible(key, t) == s.visible(key, t)) by {
        if exists|other: TxState, keys: Seq<Seq<u8>>, now: u64|
            s.can_commit() && after == #[trigger] s.commit_started(other, keys, now) {
            let (other, keys, now) = choose|other: TxState, keys: Seq<Seq<u8>>, now: u64|
                s.can_commit() && after == #[trigger] s.commit_started(other, keys, now);
            lemma_commit_keeps_visible(s, other, keys, now, key, t);
        } else if exists|other: TxState, keys: Seq<Seq<u8>>, now: u64|
            s.can_commit() && after == #[trigger] s.committed(other, keys, now) {
            let (other, keys, now) = choose|other: TxState, keys: Seq<Seq<u8>>, now: u64|
                s.can_commit() && after == #[trigger] s.committed(other, keys, now);
            lemma_commit_keeps_visible(s, other, keys, now, key, t);
        } else if exists|version: u64| version > t && after == #[trigger] s.merged(version) {
            let version = choose|version: u64| version > t && after == #[trigger] s.merged(version);
            lemma_pending_agrees(after.merges, s.merges, key, t as int);
        } else if exists|number: u64, version: u64, former: FormerModel|
            version > t && former_alike(s.store, former, t as int) && after
                == #[trigger] s.rolled_back(number, version, former) {
            let (number, version, former) = choose|
                number: u64,
                version: u64,
                former: FormerModel,
            |
                version > t && former_alike(s.store, former, t as int) && after
                    == #[trigger] s.rolled_back(number, version, former);
            lemma_pending_agrees(after.merges, s.merges, key, t as int);
        }
    }
}

/// The chains that a commit keeps, in case it has to be taken back, read like the store to every
/// transaction that is open when it starts; and so they do after whatever others do then.
pub proof fn law_kept_chains_read_alike(
    s: EngineState,
    after: EngineState,
    tx: TxState,
    other: TxState,
    keys: Seq<Seq<u8>>,
    now: u64,
    former: FormerModel,
)
    requires
        s.wf(),
        s.registered(tx),
    ensures
        s.can_commit() ==> former_alike(
            s.commit_started(other, keys, now).store,
            chains_under(s.store, other.writes),
            tx.version as int,
        ),
        steps_to(s, after, tx.version) && former_alike(s.store, former, tx.version as int)
            ==> former_alike(after.store, former, tx.version as int),
{
    let t = tx.version as int;
    if s.can_commit() {
        let kept = chains_under(s.store, other.writes);
        let one = s.commit_started(other, keys, now);
        assert forall|k: Seq<u8>| #[trigger] kept.contains_key(k) implies store_read(
            one.store,
            k,
            t,
        ) == store_read(s.store, k, t) by {
            lemma_write_keeps_reads(s.store, s.next_version(now), other.writes, k, t);
        }
    }
    if steps_to(s, after, tx.version) && former_alike(s.store, former, t) {
        assert forall|k: Seq<u8>| #[trigger] former.contains_key(k) implies store_read(
            after.store,
            k,
            t,
        ) == store_read(s.store, k, t) by {
            lemma_step_keeps_store_reads(s, after, tx, k);
        }
    }
}

/// A commit, ended or not, changes nothing at versions that were handed out before.
proof fn lemma_commit_keeps_visible(
    s: EngineState,
    other: TxState,
    keys: Seq<Seq<u8>>,
    now: u64,
    key: Seq<u8>,
    t: u64,
)
    requires
        s.wf(),
        s.can_commit(),
        t <= s.timestamp,
    ensures
        s.commit_started(other, keys, now).visible(key, t) == s.visible(key, t),
        s.committed(other, keys, now).visible(key, t) == s.visible(key, t),
{
    let version = s.next_version(now);
    let one = s.commit_started(other, keys, now);
    let two = s.committed(other, keys, now);
    if s.outcome(other) == Outcome::Applied {
        lemma_write_keeps_reads(s.store, version, other.writes, key, t as int);
        lemma_pending_agrees(one.merges, s.merges, key, t as int);
        lemma_pending_agrees(two.merges, s.merges, key, t as int);
    }
}

/// A record that does not write a key has no part in what is pending for it.
proof fn lemma_pending_without(
    m: Map<u64, (u64, WritesModel)>,
    version: u64,
    key: Seq<u8>,
    t: int,
)
    requires
        t <= u64::MAX,
        m.contains_key(version) ==> !m[version].1.contains_key(key),
    ensures
        pending(m.remove(version), key, t) == pending(m, key, t),
    decreases t + 1,
{
    if t >= 0 {
        lemma_pending_without(m, version, key, t - 1);
    }
}

/// The only record that writes a key is what is pending for it.
proof fn lemma_pending_only(m: Map<u64, (u64, WritesModel)>, version: u64, key: Seq<u8>, t: int)
    requires
        t <= u64::MAX,
        m.contains_key(version),
        m[version].1.contains_key(key),
        forall|v: u64|
            v != version && #[trigger] m.contains_key(v) ==> !m[v].1.contains_key(key),
    ensures
        pending(m, key, t) == (if version <= t {
            Some(m[version].1[key])
        } else {
            None
        }),
    decreases t + 1,
{
    if t >= 0 {
        lemma_pending_only(m, version, key, t - 1);
    }
}

/// When a commit ends, nobody reads anything else than before: its writes are read from the store
/// where they were read from its record. That is where no other commit of the same key is on its
/// way, and the store has nothing later.
pub proof fn law_ending_a_commit_is_unseen(s: EngineState, version: u64, key: Seq<u8>, t: u64)
    requires
        s.merges.contains_key(version),
        s.merges[version].1.contains_key(key) ==> {
            &&& version <= t ==> store_read(s.store, key, t as int) == s.merges[version].1[key]
            &&& forall|v: u64|
                v != version && #[trigger] s.merges.contains_key(v)
                    ==> !s.merges[v].1.contains_key(key)
        },
    ensures
        s.merged(version).visible(key, t) == s.visible(key, t),
{
    if s.merges[version].1.contains_key(key) {
        lemma_pending_only(s.merges, version, key, t as int);
        lemma_nothing_pending(s.merges.remove(version), key, t as int);
    } else {
        lemma_pending_without(s.merges, version, key, t as int);
    }
}

/// An open transaction reads the same along a whole run of such steps.
pub proof fn law_reads_repeat_along(run: Seq<EngineState>, tx: TxState, key: Seq<u8>)
    requires
        run.len() > 0,
        forall|i: int| 0 <= i < run.len() ==> #[trigger] run[i].wf() && run[i].registered(tx),
        forall|i: int|
            0 <= i < run.len() - 1 ==> steps_to(#[trigger] run[i], run[i + 1], tx.version),
    ensures
        run.last().read(tx, key) == run[0].read(tx, key),
    decreases run.len(),
{
    if run.len() > 1 {
        let n = run.len() - 1;
        let d = run.drop_last();
        assert(d.last() == run[n - 1]);
        assert(d[0] == run[0]);
        assert forall|i: int| 0 <= i < d.len() implies #[trigger] d[i].wf() && d[i].registered(
            tx,
        ) by {
            assert(run[i].wf());
        }
        assert forall|i: int| 0 <= i < d.len() - 1 implies steps_to(
            #[trigger] d[i],
            d[i + 1],
            tx.version,
        ) by {
            assert(steps_to(run[i], run[i + 1], tx.version));
        }
        law_reads_repeat_along(d, tx, key);
        assert(run[n - 1].wf());
        assert(steps_to(run[n - 1], run[n - 1 + 1], tx.version));
        law_reads_repeat(run[n - 1], run[n], tx, key);
    }
}

/// What a transaction has not committed is not seen by others: what it reads depends on the
/// engine, its own version and its own writes alone.
pub proof fn law_uncommitted_is_unseen(s: EngineState, tx: TxState, same: TxState, key: Seq<u8>)
    requires
        tx.version == same.version,
        tx.write == same.write,
        tx.writes == same.writes,
    ensures
        s.read(tx, key) == s.read(same, key),
{
}

/// A transaction reads its own writes, and they do not bear on its reads of other keys.
pub proof fn law_reads_own_writes(
    s: EngineState,
    tx: TxState,
    key: Seq<u8>,
    value: Option<Seq<u8>>,
    other: Seq<u8>,
)
    requires
        tx.write,
    ensures
        s.read(tx.wrote(key, value), key) == value,
        other != key ==> s.read(tx.wrote(key, value), other) == s.read(tx, other),
{
}

/// A commit that could not be logged is taken back: its records are gone, the store is as it was,
/// and at every version the same is visible as before. So it is, too, where transactions began or
/// went back while it waited for the log: `mid` is the engine then.
pub proof fn law_unlogged_commit_is_taken_back(
    s: EngineState,
    writes: WritesModel,
    keys: Seq<Seq<u8>>,
    now: u64,
    mid: EngineState,
)
    requires
        s.wf(),
        s.can_commit(),
    ensures
        s.applied(writes, keys, now).rolled_back(
            (s.commit_id + 1) as u64,
            s.next_version(now),
            chains_under(s.store, writes),
        ) == s.unlogged(keys, now),
        ({
            let one = s.applied(writes, keys, now);
            mid.commits == one.commits && mid.merges == one.merges && mid.store == one.store
                ==> mid.rolled_back(
                (s.commit_id + 1) as u64,
                s.next_version(now),
                chains_under(s.store, writes),
            ) == (EngineState { commits: s.commits, merges: s.merges, store: s.store, ..mid })
        }),
        s.unlogged(keys, now).store == s.store,
        forall|key: Seq<u8>, t: u64| #[trigger]
            s.unlogged(keys, now).visible(key, t) == s.visible(key, t),
{
    let number = (s.commit_id + 1) as u64;
    let version = s.next_version(now);
    let one = s.applied(writes, keys, now);
    let former = chains_under(s.store, writes);
    let two = one.rolled_back(number, version, former);
    assert(!s.commits.contains_key(number));
    assert(!s.merges.contains_key(version));
    assert(two.commits =~= s.commits);
    assert(two.merges =~= s.merges);
    assert forall|k: Seq<u8>| !written_after(one.commits, number, k) by {
        assert forall|n: u64| n > number implies !#[trigger] one.commits.contains_key(n) by {
            assert(!s.commits.contains_key(n));
        }
    }
    assert(two.store =~= s.store);
    assert(two =~= s.unlogged(keys, now));
    if mid.commits == one.commits && mid.merges == one.merges && mid.store == one.store {
        assert(mid.rolled_back(number, version, former) =~= (EngineState {
            commits: s.commits,
            merges: s.merges,
            store: s.store,
            ..mid
        }));
    }
}

/// The version of a commit lies above all that were handed out before.
pub proof fn law_versions_ascend(s: EngineState, now: u64)
    requires
        s.can_commit(),
    ensures
        s.next_version(now) > s.timestamp,
        s.next_version(now) >= now,
{
}

/// A transaction that begins after a commit sees what was committed, unless an older commit of
/// the same key has not left the merge queue.
pub proof fn law_commit_is_seen(
    s: EngineState,
    tx: TxState,
    keys: Seq<Seq<u8>>,
    now: u64,
    write: bool,
    key: Seq<u8>,
)
    requires
        s.wf(),
        s.can_commit(),
        s.outcome(tx) == Outcome::Applied,
        tx.writes.contains_key(key),
        forall|v: u64| #[trigger] s.merges.contains_key(v) ==> !s.merges[v].1.contains_key(key),
    ensures
        s.committed(tx, keys, now).read(
            TxState::opened(s.committed(tx, keys, now), write),
            key,
        ) == tx.writes[key],
        s.commit_started(tx, keys, now).read(
            TxState::opened(s.commit_started(tx, keys, now), write),
            key,
        ) == tx.writes[key],
{
    let version = s.next_version(now);
    let after = s.committed(tx, keys, now);
    lemma_write_is_read(s.store, version, tx.writes, key);
    assert forall|v: u64| #[trigger] after.merges.contains_key(v) implies !after.merges[v]
        .1.contains_key(key) by {
        assert(s.merges.contains_key(v));
    }
    lemma_nothing_pending(after.merges, key, version as int);
    let started = s.commit_started(tx, keys, now);
    assert(started.merges.contains_key(version));
    assert(started.merges[version].1.contains_key(key));
}

/// Above the highest version handed out nothing new is visible, where the store holds no version
/// above it.
proof fn lemma_visible_settles(s: EngineState, key: Seq<u8>, t: u64)
    requires
        s.wf(),
        s.store.contains_key(key) ==> chain_within(s.store[key], s.timestamp),
        s.timestamp <= t,
    ensures
        s.visible(key, t) == s.visible(key, s.timestamp),
{
    lemma_pending_settles(s.merges, key, s.timestamp as int, t as int);
    if s.store.contains_key(key) {
        lemma_reads_settle(s.store[key], s.timestamp as int);
        lemma_reads_settle(s.store[key], t as int);
    }
}

/// Above all records of a merge queue nothing new is pending.
proof fn lemma_pending_settles(m: Map<u64, (u64, WritesModel)>, key: Seq<u8>, top: int, t: int)
    requires
        0 <= top <= t <= u64::MAX,
        forall|v: u64| #[trigger] m.contains_key(v) ==> v <= top,
    ensures
        pending(m, key, t) == pending(m, key, top),
    decreases t,
{
    if top < t {
        assert(!m.contains_key(t as u64));
        lemma_pending_settles(m, key, top, t - 1);
    }
}

/// The store holds no version above the highest one handed out.
pub open spec fn store_within(s: EngineState) -> bool {
    forall|k: Seq<u8>| #[trigger] s.store.contains_key(k) ==> chain_within(s.store[k], s.timestamp)
}

/// An empty engine holds no version above the highest one handed out, and whatever happens then
/// keeps it so: beginning, going back, committing, ending a commit or taking it back, cleaning and
/// collecting.
pub proof fn law_store_stays_within(
    s: EngineState,
    tx: TxState,
    keys: Seq<Seq<u8>>,
    now: u64,
    pending: (u64, u64, FormerModel),
    ts: u64,
)
    requires
        s.wf(),
        store_within(s),
    ensures
        store_within(EngineState::fresh(now)),
        store_within(s.begun()),
        store_within(s.released(tx)),
        s.can_commit() ==> {
            &&& store_within(s.commit_started(tx, keys, now))
            &&& store_within(s.committed(tx, keys, now))
            &&& store_within(s.unlogged(keys, now))
        },
        store_within(s.merged(pending.1)),
        (forall|k: Seq<u8>| #[trigger]
            pending.2.contains_key(k) ==> (pending.2[k] matches Some(c) ==> chain_within(
                c,
                s.timestamp,
            ))) ==> store_within(s.rolled_back(pending.0, pending.1, pending.2)),
        store_within(s.cleaned()),
        store_within(s.gced(ts)),
        store_within(s.floored(ts).collected_dirty(ts)),
{
    let version = s.next_version(now);
    if s.can_commit() {
        let written = store_write(s.store, version, tx.writes);
        assert forall|k: Seq<u8>| #[trigger] written.contains_key(k) implies chain_within(
            written[k],
            version,
        ) by {
            if tx.writes.contains_key(k) && s.store.contains_key(k) {
                lemma_push_within(s.store[k], version, tx.writes[k]);
            }
        }
    }
    let put_back = s.rolled_back(pending.0, pending.1, pending.2);
    assert forall|k: Seq<u8>| #[trigger] put_back.store.contains_key(k) && (forall|j: Seq<u8>|
        #[trigger]
        pending.2.contains_key(j) ==> (pending.2[j] matches Some(c) ==> chain_within(
            c,
            s.timestamp,
        ))) implies chain_within(put_back.store[k], s.timestamp) by {
        if pending.2.contains_key(k) && !written_after(s.commits, pending.0, k) {
            assert(pending.2[k] is Some);
        } else {
            assert(s.store.contains_key(k));
        }
    }
    let all = store_gc(s.store, ts);
    assert forall|k: Seq<u8>| #[trigger] all.contains_key(k) implies chain_within(
        all[k],
        s.timestamp,
    ) by {
        lemma_gc_within(s.store[k], ts, s.timestamp);
    }
    let some = store_gc_keys(s.store, s.dirty.to_set(), ts);
    assert forall|k: Seq<u8>| #[trigger] some.contains_key(k) implies chain_within(
        some[k],
        s.timestamp,
    ) by {
        lemma_gc_within(s.store[k], ts, s.timestamp);
    }
}

/// A write adds no version but its own.
proof fn lemma_push_within(c: ChainModel, version: u64, value: Option<Seq<u8>>)
    requires
        chain_sorted(c),
        chain_within(c, version),
    ensures
        chain_within(chain_push(c, version, value), version),
{
    lemma_lte_index(c, version as int);
}

/// A collection adds no version.
proof fn lemma_gc_within(c: ChainModel, ts: u64, v: u64)
    requires
        chain_sorted(c),
        chain_within(c, v),
    ensures
        chain_within(chain_gc(c, ts), v),
{
    lemma_lte_index(c, ts as int);
}

/// A commit changes nothing under the keys that it did not write: a transaction that begins
/// afterwards reads there what one would have read that had begun right before. That is where the
/// store holds no version of the key above the highest one handed out.
pub proof fn law_commit_spares_other_keys(
    s: EngineState,
    tx: TxState,
    keys: Seq<Seq<u8>>,
    now: u64,
    write: bool,
    key: Seq<u8>,
)
    requires
        s.wf(),
        s.can_commit(),
        !tx.writes.contains_key(key),
        s.store.contains_key(key) ==> chain_within(s.store[key], s.timestamp),
    ensures
        s.committed(tx, keys, now).read(
            TxState::opened(s.committed(tx, keys, now), write),
            key,
        ) == s.read(TxState::opened(s, write), key),
        s.commit_started(tx, keys, now).read(
            TxState::opened(s.commit_started(tx, keys, now), write),
            key,
        ) == s.read(TxState::opened(s, write), key),
{
    let version = s.next_version(now);
    let started = s.commit_started(tx, keys, now);
    let after = s.committed(tx, keys, now);
    if s.outcome(tx) == Outcome::Applied {
        assert(!s.merges.contains_key(version));
        assert(after.merges =~= s.merges);
        assert(started.merges.remove(version) =~= s.merges);
        lemma_pending_without(started.merges, version, key, version as int);
        lemma_visible_settles(s, key, version);
    }
}

/// A commit becomes visible as a whole: a transaction that begins afterwards reads all that it
/// wrote, and under every other key what was there before; a transaction that is open reads none
/// of it. That is where no older commit of a key that it wrote is on its way, and the store holds
/// no version above the highest one handed out.
pub proof fn law_commit_is_whole(
    s: EngineState,
    tx: TxState,
    keys: Seq<Seq<u8>>,
    now: u64,
    write: bool,
    reader: TxState,
)
    requires
        s.wf(),
        s.can_commit(),
        s.outcome(tx) == Outcome::Applied,
        s.registered(reader),
        forall|v: u64, k: Seq<u8>|
            #![trigger s.merges[v].1.contains_key(k)]
            s.merges.contains_key(v) && tx.writes.contains_key(k) ==> !s.merges[v].1.contains_key(
                k,
            ),
        store_within(s),
    ensures
        forall|k: Seq<u8>| #[trigger]
            s.committed(tx, keys, now).read(
                TxState::opened(s.committed(tx, keys, now), write),
                k,
            ) == (if tx.writes.contains_key(k) {
                tx.writes[k]
            } else {
                s.read(TxState::opened(s, write), k)
            }),
        forall|k: Seq<u8>| #[trigger]
            s.committed(tx, keys, now).read(reader, k) == s.read(reader, k),
{
    let after = s.committed(tx, keys, now);
    assert forall|k: Seq<u8>| #[trigger]
        after.read(TxState::opened(after, write), k) == (if tx.writes.contains_key(k) {
            tx.writes[k]
        } else {
            s.read(TxState::opened(s, write), k)
        }) by {
        if tx.writes.contains_key(k) {
            law_commit_is_seen(s, tx, keys, now, write, k);
        } else {
            law_commit_spares_other_keys(s, tx, keys, now, write, k);
        }
    }
    assert forall|k: Seq<u8>| #[trigger] after.read(reader, k) == s.read(reader, k) by {
        law_reads_repeat(s, after, reader, k);
    }
}

/// After a commit that could not be logged, a transaction reads what it would have read had it
/// begun right before the commit: under the keys that were to be written, and under all others.
/// That is where the store holds no version of the key above the highest one handed out.
pub proof fn law_unlogged_commit_is_unseen(
    s: EngineState,
    keys: Seq<Seq<u8>>,
    now: u64,
    write: bool,
    key: Seq<u8>,
)
    requires
        s.wf(),
        s.can_commit(),
        s.store.contains_key(key) ==> chain_within(s.store[key], s.timestamp),
    ensures
        s.unlogged(keys, now).read(TxState::opened(s.unlogged(keys, now), write), key) == s.read(
            TxState::opened(s, write),
            key,
        ),
{
    lemma_visible_settles(s, key, s.next_version(now));
}

/// A transaction that is cancelled, refused, empty or closed leaves the store as it was, and
/// hands out no version.
pub proof fn law_no_commit_no_trace(
    s: EngineState,
    tx: TxState,
    keys: Seq<Seq<u8>>,
    now: u64,
    key: Seq<u8>,
    t: u64,
)
    requires
        s.outcome(tx) != Outcome::Applied,
    ensures
        s.committed(tx, keys, now).store == s.store,
        s.committed(tx, keys, now).timestamp == s.timestamp,
        s.committed(tx, keys, now).commits == s.commits,
        s.committed(tx, keys, now).visible(key, t) == s.visible(key, t),
{
}

/// A record clashes with a transaction.
pub open spec fn clashes(record: (u64, WritesModel), tx: TxState) -> bool {
    writes_clash(record, tx.footprint()) || reads_clash(record, tx.footprint())
}

/// A commit passes if and only if none of the commits since the transaction began clashes with
/// it.
pub proof fn law_conflict_iff_clash(s: EngineState, tx: TxState)
    requires
        s.wf(),
        tx.commit <= s.commit_id,
    ensures
        s.verdict(tx) == Verdict::Clear <==> forall|k: u64|
            tx.commit < k && #[trigger] s.commits.contains_key(k) ==> !clashes(s.commits[k], tx),
{
    lemma_verdict_clear(s.commits, tx.commit + 1, s.commit_id + 1, tx.footprint());
    if s.verdict(tx) == Verdict::Clear {
        assert forall|k: u64|
            tx.commit < k && #[trigger] s.commits.contains_key(k) implies !clashes(
            s.commits[k],
            tx,
        ) by {
            assert(k <= s.commit_id);
        }
    }
}

proof fn lemma_verdict_clear(m: Map<u64, (u64, WritesModel)>, lo: int, hi: int, f: Footprint)
    requires
        0 <= lo,
        hi <= u64::MAX + 1,
    ensures
        verdict_from(m, lo, hi, f) == Verdict::Clear <==> forall|k: u64|
            lo <= k < hi && #[trigger] m.contains_key(k) ==> !writes_clash(m[k], f)
                && !reads_clash(m[k], f),
    decreases hi - lo,
{
    if lo < hi {
        lemma_verdict_clear(m, lo + 1, hi, f);
        let k = lo as u64;
        assert(k == lo);
        if m.contains_key(k) && (writes_clash(m[k], f) || reads_clash(m[k], f)) {
            assert(verdict_from(m, lo, hi, f) != Verdict::Clear);
        } else {
            assert(verdict_from(m, lo, hi, f) == verdict_from(m, lo + 1, hi, f));
        }
    }
}

/// A refusal for a read comes to transactions alone whose reads are checked.
proof fn lemma_verdict_reads(m: Map<u64, (u64, WritesModel)>, lo: int, hi: int, f: Footprint)
    requires
        !f.ssi,
    ensures
        verdict_from(m, lo, hi, f) != Verdict::ReadConflict,
    decreases hi - lo,
{
    if lo < hi {
        lemma_verdict_reads(m, lo + 1, hi, f);
    }
}

/// Of two open transactions that write a key in common, the first to commit wins: the other one
/// is refused.
pub proof fn law_first_committer_wins(
    s: EngineState,
    first: TxState,
    second: TxState,
    keys: Seq<Seq<u8>>,
    now: u64,
    key: Seq<u8>,
)
    requires
        s.wf(),
        s.can_commit(),
        s.registered(second),
        s.outcome(first) == Outcome::Applied,
        !second.done,
        first.writes.contains_key(key),
        second.writes.contains_key(key),
    ensures
        s.committed(first, keys, now).outcome(second) == Outcome::WriteConflict || s.committed(
            first,
            keys,
            now,
        ).outcome(second) == Outcome::ReadConflict,
        !second.ssi ==> s.committed(first, keys, now).outcome(second) == Outcome::WriteConflict,
{
    let after = s.committed(first, keys, now);
    let k = (s.commit_id + 1) as u64;
    lemma_verdict_clear(after.commits, second.commit + 1, after.commit_id + 1, second.footprint());
    assert(after.commits.contains_key(k));
    assert(writes_clash(after.commits[k], second.footprint())) by {
        assert(first.writes.dom().contains(key) && second.writes.dom().contains(key));
    }
    assert(second.writes.dom().contains(key));
    if !second.ssi {
        lemma_verdict_reads(
            after.commits,
            second.commit + 1,
            after.commit_id + 1,
            second.footprint(),
        );
    }
}

/// A transaction whose reads are checked is refused once another one has committed a write to a
/// key that it read. So of two transactions that each read what the other one writes, one is
/// refused.
pub proof fn law_checked_reads_hold(
    s: EngineState,
    first: TxState,
    second: TxState,
    keys: Seq<Seq<u8>>,
    now: u64,
    key: Seq<u8>,
)
    requires
        s.wf(),
        s.can_commit(),
        s.registered(second),
        s.outcome(first) == Outcome::Applied,
        !second.done,
        second.ssi,
        second.writes.dom() != Set::<Seq<u8>>::empty(),
        first.writes.contains_key(key),
        second.reads.contains(key),
    ensures
        s.committed(first, keys, now).outcome(second) == Outcome::WriteConflict || s.committed(
            first,
            keys,
            now,
        ).outcome(second) == Outcome::ReadConflict,
{
    let after = s.committed(first, keys, now);
    let k = (s.commit_id + 1) as u64;
    lemma_verdict_clear(after.commits, second.commit + 1, after.commit_id + 1, second.footprint());
    assert(after.commits.contains_key(k));
    assert(reads_clash(after.commits[k], second.footprint())) by {
        assert(first.writes.dom().contains(key) && second.reads.contains(key));
    }
}

/// Under snapshot isolation reads are not checked: a commit passes if none of the commits since
/// the transaction began wrote a key that it wrote.
pub proof fn law_unchecked_reads_pass(s: EngineState, tx: TxState)
    requires
        s.wf(),
        tx.commit <= s.commit_id,
        !tx.ssi,
        !tx.done,
        tx.writes.dom() != Set::<Seq<u8>>::empty(),
        forall|k: u64|
            tx.commit < k && #[trigger] s.commits.contains_key(k) ==> s.commits[k].1.dom().disjoint(
                tx.writes.dom(),
            ),
    ensures
        s.outcome(tx) == Outcome::Applied,
{
    law_conflict_iff_clash(s, tx);
    assert forall|k: u64| tx.commit < k && #[trigger] s.commits.contains_key(k) implies !clashes(
        s.commits[k],
        tx,
    ) by {}
}

/// Cleaning the commit queue changes the outcome of no open transaction.
pub proof fn law_cleaning_keeps_outcomes(s: EngineState, tx: TxState)
    requires
        s.wf(),
        s.registered(tx),
    ensures
        s.cleaned().outcome(tx) == s.outcome(tx),
{
    assert(active(s.by_commit, tx.commit));
    lemma_earliest_exists(s.by_commit, tx.commit);
    let k = choose|k: u64| is_earliest(s.by_commit, k);
    assert(is_earliest(s.by_commit, k));
    assert(earliest(s.by_commit, s.commit_id) <= tx.commit);
    lemma_verdict_agrees(
        s.cleaned().commits,
        s.commits,
        tx.commit + 1,
        s.commit_id + 1,
        tx.footprint(),
    );
}

/// Collecting versions changes the outcome of no transaction.
pub proof fn law_collecting_keeps_outcomes(s: EngineState, tx: TxState, ts: u64)
    ensures
        s.gced(ts).outcome(tx) == s.outcome(tx),
        s.floored(ts).collected_dirty(ts).outcome(tx) == s.outcome(tx),
{
}

/// A transaction that goes back right after it began leaves the engine as it was.
pub proof fn law_begin_release_cancel(s: EngineState, write: bool)
    requires
        s.wf(),
        s.can_begin(),
    ensures
        s.begun().released(TxState::opened(s, write)) == s,
        s.begun().registered(TxState::opened(s, write)),
{
    lemma_up_down(s.by_commit, s.commit_id, s.commit_id);
    lemma_up_down(s.by_oracle, s.timestamp, s.timestamp);
    assert(s.begun().released(TxState::opened(s, write)) =~= s);
}

/// Counting up and then down again changes nothing.
pub proof fn lemma_up_down(m: Map<u64, u64>, k: u64, top: u64)
    requires
        crate::model::counters_live(m, top),
        count_of(m, k) < u64::MAX - 1,
    ensures
        counted_down(counted_up(m, k), k) == m,
{
    let up = counted_up(m, k);
    if m.contains_key(k) {
        assert(up[k] == m[k] + 1);
        assert(counted_down(up, k) =~= m);
    } else {
        assert(counted_down(up, k) =~= m);
    }
}

/// A transaction stays registered while another one that began beside it goes back.
pub proof fn law_release_spares_others(s: EngineState, first: bool, second: bool)
    requires
        s.wf(),
        s.can_begin(),
        s.begun().can_begin(),
    ensures
        s.begun().begun().released(TxState::opened(s, first)).registered(
            TxState::opened(s.begun(), second),
        ),
{
    let c = s.commit_id;
    let t = s.timestamp;
    assert(count_of(s.begun().begun().by_commit, c) >= 2);
    assert(count_of(s.begun().begun().by_oracle, t) >= 2);
}

/// Transactions can begin after a collection as before it: the floor stays at or below the
/// version that they get.
pub proof fn law_collection_lets_begin(s: EngineState, now: u64)
    requires
        s.wf(),
    ensures
        s.gced(s.cleanup_ts(now)).gc_floor <= s.gced(s.cleanup_ts(now)).timestamp,
        s.can_begin() ==> s.gced(s.cleanup_ts(now)).can_begin(),
{
}

/// A transaction that registers while a collection is announced is spared. The collection looks at
/// the counters after it has announced its floor, and the transaction looks at the floor after it
/// was counted: so it is counted when the collection looks, or it sees the floor.
pub proof fn law_racing_registration_is_spared(
    counters: Map<u64, u64>,
    proposed: u64,
    fallback: u64,
    table: Map<u64, u64>,
    latest: u64,
    reloaded: u64,
    seen_floor: u64,
)
    requires
        registers(table, latest, reloaded, Some(seen_floor)),
        active(counters, latest) || proposed <= seen_floor,
    ensures
        min2(proposed, earliest(counters, fallback)) <= latest,
{
    if active(counters, latest) {
        lemma_earliest_exists(counters, latest);
        let k = choose|k: u64| is_earliest(counters, k);
        assert(is_earliest(counters, k));
    }
}

/// A transaction that registers while the commit queue is cleaned keeps the records that it has to
/// look at. The cleaning looks at the counters after it has read the latest number, and the
/// transaction reads the latest number again after it was counted: so it is counted when the
/// cleaning looks, or it has a number that is not below any that the cleaning knows of.
pub proof fn law_racing_registration_keeps_records(
    counters: Map<u64, u64>,
    fallback: u64,
    table: Map<u64, u64>,
    latest: u64,
    reloaded: u64,
)
    requires
        registers(table, latest, reloaded, None),
        active(counters, latest) || (fallback <= reloaded && forall|k: u64| #[trigger]
            active(counters, k) ==> k <= reloaded),
    ensures
        earliest(counters, fallback) <= latest,
{
    if exists|k: u64| active(counters, k) {
        let a = choose|k: u64| active(counters, k);
        lemma_earliest_exists(counters, a);
        let k = choose|k: u64| is_earliest(counters, k);
        assert(is_earliest(counters, k));
        assert(active(counters, k));
    }
}

} // verus!
