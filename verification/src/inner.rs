//! The state that transactions share: the oracle, the queues of committing transactions, the
//! counters of open ones, and the store.

use bytes::Bytes;
use crossbeam_queue::SegQueue;
use crossbeam_skiplist::SkipMap;
use std::sync::Arc;
use vstd::prelude::*;

use crate::chain::{
    chain_sorted, law_gc_idempotent, lemma_gc_sorted, lemma_push_sorted, ChainModel,
};
use crate::dirty::{dirty_new, dirty_pop, dirty_push, dirty_view};
use crate::kv::{bytes_as_slice, bytes_clone, bytes_view, value_clone, value_view};
use crate::model::{
    active, chains_under, count_of, counted_down, counted_up, earliest, is_earliest, key_write,
    pending, records_from, store_gc, store_gc_keys, store_put_back, store_sorted, store_write,
    written_after, EngineState, FormerModel, StoreModel, WritesModel, COUNTER_TOMBSTONE,
};
use crate::options::DatabaseOptions;
use crate::oracle::Oracle;
use crate::queue::{Commit, Merge};
use crate::skip::{
    commits_get_or_insert, commits_new, commits_range, commits_remove, commits_view,
    counters_get, counters_get_or_insert, counters_insert, counters_iter, counters_new,
    counters_remove, counters_view, lists_commits, lists_counters, lists_merges, lists_store,
    merges_get_or_insert, merges_new, merges_range, merges_remove, merges_view, store_get,
    store_insert, store_iter, store_new, store_remove, store_view,
};
use crate::versions::{Version, Versions};
use crate::writeset::{lemma_map_of, map_of, EntriesModel, WriteSet};

verus! {

/// Calls `Arc::clone`, which hands out a second handle on the same value.
#[verifier::external_body]
pub(crate) fn arc_clone<T>(a: &Arc<T>) -> (r: Arc<T>)
    ensures
        r == *a,
{
    Arc::clone(a)
}

/// A transaction can be registered at `latest`: its counter is not dead, the number is still the
/// latest one once it was counted, and collection has not got past it.
pub open spec fn registers(
    m: Map<u64, u64>,
    latest: u64,
    reloaded: u64,
    gc_floor: Option<u64>,
) -> bool {
    &&& count_of(m, latest) != COUNTER_TOMBSTONE
    &&& reloaded == latest
    &&& gc_floor matches Some(floor) ==> floor <= latest
}

/// Tries to register a transaction in a table of counters, at the number `latest` that was handed
/// out last. Once it is counted there, the number is read again: `reloaded`. Where another one was
/// handed out meanwhile, or collection has got past it, the transaction is taken off again and has
/// to be registered anew; so it is where the counter is on its way out.
pub fn try_register(
    map: &mut SkipMap<u64, u64>,
    latest: u64,
    reloaded: u64,
    gc_floor: Option<u64>,
) -> (r: Option<u64>)
    requires
        count_of(counters_view(*old(map)), latest) != COUNTER_TOMBSTONE - 1,
    ensures
        r == (if registers(counters_view(*old(map)), latest, reloaded, gc_floor) {
            Some(latest)
        } else {
            None
        }),
        counters_view(*final(map)) == (if count_of(counters_view(*old(map)), latest)
            == COUNTER_TOMBSTONE {
            counters_view(*old(map))
        } else if r is Some {
            counted_up(counters_view(*old(map)), latest)
        } else {
            counted_down(counted_up(counters_view(*old(map)), latest), latest)
        }),
{
    let current: u64 = counters_get_or_insert(map, latest);
    if current == COUNTER_TOMBSTONE {
        return None;
    }
    counters_insert(map, latest, current + 1);
    assert(counters_view(*map) =~= counted_up(counters_view(*old(map)), latest));
    let floor_ok = match gc_floor {
        Some(floor) => floor <= latest,
        None => true,
    };
    if reloaded == latest && floor_ok {
        return Some(latest);
    }
    release_at(map, latest);
    None
}

/// Registers a transaction in a table of counters, at the number that was handed out last, and
/// returns that number. Where collection has a floor, the number is not below it.
pub fn register_counter(map: &mut SkipMap<u64, u64>, latest: u64, gc_floor: Option<u64>) -> (r: u64)
    requires
        count_of(counters_view(*old(map)), latest) < COUNTER_TOMBSTONE - 1,
        gc_floor matches Some(floor) ==> floor <= latest,
    ensures
        r == latest,
        counters_view(*final(map)) == counted_up(counters_view(*old(map)), latest),
{
    match try_register(map, latest, latest, gc_floor) {
        Some(v) => v,
        None => latest,
    }
}

/// Takes one transaction off a counter. The last one marks the counter as dead, and then the
/// caller has to take it out of its table: that is what `true` says.
pub fn release_counter(counter: &mut u64) -> (r: bool)
    requires
        1 <= *old(counter) < COUNTER_TOMBSTONE,
    ensures
        r == (*old(counter) == 1),
        !r ==> *final(counter) == *old(counter) - 1,
        r ==> *final(counter) == COUNTER_TOMBSTONE,
{
    let current: u64 = *counter;
    if current > 1 {
        *counter = current - 1;
        return false;
    }
    *counter = COUNTER_TOMBSTONE;
    true
}

/// Takes one transaction off the counter at `key`, and the counter out where it was the last.
fn release_at(map: &mut SkipMap<u64, u64>, key: u64)
    requires
        counters_view(*old(map)).contains_key(key),
        1 <= counters_view(*old(map))[key] < COUNTER_TOMBSTONE,
    ensures
        counters_view(*final(map)) == counted_down(counters_view(*old(map)), key),
{
    if let Some(c) = counters_get(map, key) {
        let mut counter: u64 = c;
        if release_counter(&mut counter) {
            counters_remove(map, key);
        } else {
            counters_insert(map, key, counter);
        }
    }
}

/// There is at most one least number.
proof fn lemma_earliest(m: Map<u64, u64>, fallback: u64, k: u64)
    requires
        is_earliest(m, k),
    ensures
        earliest(m, fallback) == k,
{
    let c = choose|c: u64| is_earliest(m, c);
    assert(is_earliest(m, c));
    assert(active(m, c) && active(m, k));
}

/// The least number at which open transactions are counted, or `fallback` where there are none.
pub fn earliest_active(map: &SkipMap<u64, u64>, fallback: u64) -> (r: u64)
    ensures
        r == earliest(counters_view(*map), fallback),
{
    let list = counters_iter(map);
    let ghost m = counters_view(*map);
    let mut i: usize = 0;
    while i < list.len()
        invariant
            i <= list@.len(),
            m == counters_view(*map),
            lists_counters(list@, m),
            forall|j: int| 0 <= j < i ==> !active(m, (#[trigger] list@[j]).0),
        decreases list@.len() - i,
    {
        let (key, c) = list[i];
        assert(list@[i as int].0 == key);
        if c != 0 && c != COUNTER_TOMBSTONE {
            proof {
                assert forall|j: u64| #[trigger] active(m, j) implies key <= j by {
                    let x = choose|x: int| 0 <= x < list@.len() && (#[trigger] list@[x]).0 == j;
                    assert(!(x < i) || !active(m, list@[x].0));
                }
                assert(is_earliest(m, key));
                lemma_earliest(m, fallback, key);
            }
            return key;
        }
        i += 1;
    }
    proof {
        if exists|k: u64| is_earliest(m, k) {
            let k = choose|k: u64| is_earliest(m, k);
            let x = choose|x: int| 0 <= x < list@.len() && (#[trigger] list@[x]).0 == k;
            assert(!active(m, list@[x].0));
        }
    }
    fallback
}

/// Collecting some keys and then others is collecting all of them.
proof fn lemma_gc_keys_compose(s: StoreModel, a: Set<Seq<u8>>, b: Set<Seq<u8>>, ts: u64)
    requires
        store_sorted(s),
    ensures
        store_gc_keys(store_gc_keys(s, a, ts), b, ts) == store_gc_keys(s, a.union(b), ts),
        store_sorted(store_gc_keys(s, a, ts)),
{
    let one = store_gc_keys(s, a, ts);
    assert forall|k: Seq<u8>| #[trigger] one.contains_key(k) implies chain_sorted(one[k]) by {
        lemma_gc_sorted(s[k], ts);
    }
    let two = store_gc_keys(one, b, ts);
    let all = store_gc_keys(s, a.union(b), ts);
    assert forall|k: Seq<u8>| two.contains_key(k) == all.contains_key(k) by {
        if s.contains_key(k) {
            law_gc_idempotent(s[k], ts);
        }
    }
    assert forall|k: Seq<u8>| two.contains_key(k) implies two[k] == all[k] by {
        law_gc_idempotent(s[k], ts);
    }
    assert(two =~= all);
}

/// Collecting no keys changes nothing, and collecting the keys of a store collects all of it.
proof fn lemma_gc_keys_extremes(s: StoreModel, keys: Set<Seq<u8>>, ts: u64)
    ensures
        store_gc_keys(s, Set::empty(), ts) == s,
        (forall|k: Seq<u8>| #[trigger] s.contains_key(k) ==> keys.contains(k)) ==> store_gc_keys(
            s,
            keys,
            ts,
        ) == store_gc(s, ts),
{
    assert(store_gc_keys(s, Set::empty(), ts) =~= s);
    if forall|k: Seq<u8>| #[trigger] s.contains_key(k) ==> keys.contains(k) {
        assert(store_gc_keys(s, keys, ts) =~= store_gc(s, ts));
    }
}

/// Collecting everything subsumes having collected some keys.
pub proof fn lemma_gc_after_keys(s: StoreModel, keys: Set<Seq<u8>>, ts: u64)
    requires
        store_sorted(s),
    ensures
        store_gc(store_gc_keys(s, keys, ts), ts) == store_gc(s, ts),
{
    let one = store_gc_keys(s, keys, ts);
    let two = store_gc(one, ts);
    let all = store_gc(s, ts);
    assert forall|k: Seq<u8>| two.contains_key(k) == all.contains_key(k) by {
        if s.contains_key(k) {
            law_gc_idempotent(s[k], ts);
        }
    }
    assert forall|k: Seq<u8>| two.contains_key(k) implies two[k] == all[k] by {
        law_gc_idempotent(s[k], ts);
    }
    assert(two =~= all);
}

/// Writing one more key to a store.
pub proof fn lemma_store_write_step(s: StoreModel, v: u64, m: WritesModel, k: Seq<u8>, x: Option<Seq<u8>>)
    requires
        !m.contains_key(k),
    ensures
        store_write(s, v, m.insert(k, x)) == store_write(s, v, m).insert(
            k,
            key_write(store_write(s, v, m), k, v, x),
        ),
{
    let part = store_write(s, v, m);
    assert(part.contains_key(k) == s.contains_key(k));
    if s.contains_key(k) {
        assert(part[k] == s[k]);
    }
    assert(key_write(part, k, v, x) == key_write(s, k, v, x));
    assert(store_write(s, v, m.insert(k, x)) =~= part.insert(k, key_write(part, k, v, x)));
}

/// A write to a store keeps its chains sorted.
pub proof fn lemma_store_write_sorted(s: StoreModel, v: u64, m: WritesModel)
    requires
        store_sorted(s),
    ensures
        store_sorted(store_write(s, v, m)),
{
    let t = store_write(s, v, m);
    assert forall|k: Seq<u8>| #[trigger] t.contains_key(k) implies chain_sorted(t[k]) by {
        if m.contains_key(k) && s.contains_key(k) {
            lemma_push_sorted(s[k], v, m[k]);
        }
    }
}

/// The keys of a list of entries.
pub open spec fn keys_of(e: EntriesModel) -> Seq<Seq<u8>> {
    Seq::new(e.len(), |i: int| e[i].0)
}

/// Keys of a list of entries with chains that stand in the same order.
pub open spec fn paired(e: EntriesModel, chains: Seq<Option<Arc<Versions>>>) -> FormerModel {
    Map::new(
        |k: Seq<u8>| exists|i: int| 0 <= i < e.len() && #[trigger] e[i].0 == k,
        |k: Seq<u8>|
            {
                let i = choose|i: int| 0 <= i < e.len() && #[trigger] e[i].0 == k;
                chain_of(chains[i])
            },
    )
}

/// What a chain holds, where there is one.
pub open spec fn chain_of(c: Option<Arc<Versions>>) -> Option<ChainModel> {
    match c {
        Some(v) => Some(v@),
        None => None,
    }
}

/// Every chain that is there is sorted.
pub open spec fn chains_sorted(chains: Seq<Option<Arc<Versions>>>) -> bool {
    forall|i: int|
        0 <= i < chains.len() ==> (#[trigger] chain_of(chains[i]) matches Some(c)
            ==> chain_sorted(c))
}

/// A key of a sorted list stands in one place.
proof fn lemma_paired(e: EntriesModel, chains: Seq<Option<Arc<Versions>>>, i: int)
    requires
        crate::writeset::entries_sorted(e),
        0 <= i < e.len(),
    ensures
        paired(e, chains).contains_key(e[i].0),
        paired(e, chains)[e[i].0] == chain_of(chains[i]),
{
    let j = choose|j: int| 0 <= j < e.len() && #[trigger] e[j].0 == e[i].0;
    crate::kv::lemma_lex_irreflexive(e[i].0);
    assert(i < j ==> crate::kv::lex_lt(e[i].0, e[j].0));
    assert(j < i ==> crate::kv::lex_lt(e[j].0, e[i].0));
}

/// The shared state.
pub struct Inner {
    /// Hands out versions.
    oracle: Oracle,
    /// The highest commit number handed out.
    transaction_commit_id: u64,
    /// How many records went to the commit queue.
    transaction_queue_id: u64,
    /// Records of commits, which conflicts are looked for in.
    transaction_commit_queue: SkipMap<u64, Arc<Commit>>,
    /// How many records went to the merge queue.
    transaction_merge_id: u64,
    /// Writes on their way to the store.
    transaction_merge_queue: SkipMap<u64, Arc<Merge>>,
    /// How many open transactions began at a commit number.
    counter_by_commit: SkipMap<u64, u64>,
    /// How many open transactions read at a version.
    counter_by_oracle: SkipMap<u64, u64>,
    /// The highest version at which a collection was announced.
    gc_floor: u64,
    /// The keys that were written since they were last collected.
    gc_dirty_keys: SegQueue<Bytes>,
    /// The store.
    datastore: SkipMap<Bytes, Arc<Versions>>,
    /// Up to how many writes a finished transaction may hold for its memory to be kept.
    reset_threshold: usize,
}

impl View for Inner {
    type V = EngineState;

    closed spec fn view(&self) -> EngineState {
        EngineState {
            timestamp: self.oracle.high_water(),
            commit_id: self.transaction_commit_id,
            queue_id: self.transaction_queue_id,
            merge_id: self.transaction_merge_id,
            commits: commits_view(self.transaction_commit_queue),
            merges: merges_view(self.transaction_merge_queue),
            by_commit: counters_view(self.counter_by_commit),
            by_oracle: counters_view(self.counter_by_oracle),
            gc_floor: self.gc_floor,
            dirty: dirty_view(self.gc_dirty_keys),
            store: store_view(self.datastore),
        }
    }
}

impl Inner {
    /// What every operation keeps.
    pub open spec fn wf(&self) -> bool {
        self@.wf()
    }

    /// Up to how many writes a finished transaction may hold for its memory to be kept.
    pub closed spec fn threshold(&self) -> usize {
        self.reset_threshold
    }

    /// The clock that versions are read off.
    pub closed spec fn clock(&self) -> Oracle {
        self.oracle
    }

    /// What is not part of the state is the same in both.
    pub open spec fn same_setup(&self, other: Inner) -> bool {
        &&& self.threshold() == other.threshold()
        &&& self.clock().same_anchor(other.clock())
        &&& self.clock().interval() == other.clock().interval()
    }

    /// An empty engine, anchored to the present.
    pub fn new(opts: &DatabaseOptions) -> (r: Self)
        ensures
            r@ == EngineState::fresh(r@.timestamp),
            r.wf(),
            r@.timestamp == r.clock().anchor(),
            r.clock().is_anchored(),
            r.threshold() == opts.reset_threshold,
            r.clock().interval() == opts.resync_interval,
    {
        let r = Inner {
            oracle: Oracle::new(opts.resync_interval),
            transaction_commit_id: 0,
            transaction_queue_id: 0,
            transaction_commit_queue: commits_new(),
            transaction_merge_id: 0,
            transaction_merge_queue: merges_new(),
            counter_by_commit: counters_new(),
            counter_by_oracle: counters_new(),
            gc_floor: 0,
            gc_dirty_keys: dirty_new(),
            datastore: store_new(),
            reset_threshold: opts.reset_threshold,
        };
        proof {
            let s = r@;
            let f = EngineState::fresh(s.timestamp);
            assert(s.commits =~= f.commits);
            assert(s.merges =~= f.merges);
            assert(s.by_commit =~= f.by_commit);
            assert(s.by_oracle =~= f.by_oracle);
            assert(s.store =~= f.store);
            assert(s.dirty =~= f.dirty);
        }
        r
    }

    /// The present time, as the oracle reads it.
    pub fn current_time_ns(&self) -> (r: u64)
        ensures
            self.clock().reads(r),
    {
        self.oracle.current_time_ns()
    }

    /// Sets the clock anew.
    pub fn resync(&mut self)
        ensures
            final(self)@ == old(self)@,
            final(self).threshold() == old(self).threshold(),
            final(self).clock().interval() == old(self).clock().interval(),
            final(self).clock().is_anchored(),
    {
        self.oracle.resync();
    }

    /// How often the clock is to be set anew.
    pub fn resync_interval(&self) -> (r: std::time::Duration)
        ensures
            r == self.clock().interval(),
    {
        self.oracle.resync_interval()
    }

    /// The highest commit number handed out.
    pub fn commit_id(&self) -> (r: u64)
        ensures
            r == self@.commit_id,
    {
        self.transaction_commit_id
    }

    /// The highest version handed out.
    pub fn timestamp(&self) -> (r: u64)
        ensures
            r == self@.timestamp,
    {
        self.oracle.current_timestamp()
    }

    /// The version below which a collection may have dropped what was visible.
    pub fn gc_floor(&self) -> (r: u64)
        ensures
            r == self@.gc_floor,
    {
        self.gc_floor
    }

    /// Up to how many writes a finished transaction may hold for its memory to be kept.
    pub fn reset_threshold(&self) -> (r: usize)
        ensures
            r == self.threshold(),
    {
        self.reset_threshold
    }

    /// Whether the counters have room for one more transaction.
    pub fn can_begin(&self) -> (r: bool)
        ensures
            r == self@.can_begin(),
    {
        let begun: u64 = counters_get(
            &self.counter_by_commit,
            self.transaction_commit_id,
        ).unwrap_or(0);
        let reading: u64 = counters_get(
            &self.counter_by_oracle,
            self.oracle.current_timestamp(),
        ).unwrap_or(0);
        begun < COUNTER_TOMBSTONE - 1 && reading < COUNTER_TOMBSTONE - 1
    }

    /// Whether there are numbers and versions left for one more commit.
    pub fn can_commit(&self) -> (r: bool)
        ensures
            r == self@.can_commit(),
    {
        self.transaction_commit_id < u64::MAX - 1 && self.transaction_queue_id < u64::MAX
            && self.transaction_merge_id < u64::MAX && self.oracle.current_timestamp() < u64::MAX
    }

    /// Registers a transaction that begins now; returns the commit number at which it begins and
    /// the version at which it reads.
    pub fn register(&mut self) -> (r: (u64, u64))
        requires
            old(self).wf(),
            old(self)@.can_begin(),
        ensures
            final(self)@ == old(self)@.begun(),
            final(self).wf(),
            r == (old(self)@.commit_id, old(self)@.timestamp),
            final(self).same_setup(*old(self)),
    {
        let timestamp: u64 = self.oracle.current_timestamp();
        let version: u64 = register_counter(
            &mut self.counter_by_oracle,
            timestamp,
            Some(self.gc_floor),
        );
        let commit: u64 = register_counter(
            &mut self.counter_by_commit,
            self.transaction_commit_id,
            None,
        );
        assert(self@ =~= old(self)@.begun());
        (commit, version)
    }

    /// Takes an open transaction off the counters.
    pub fn release(&mut self, commit: u64, version: u64)
        requires
            old(self).wf(),
            old(self)@.by_commit.contains_key(commit),
            old(self)@.by_oracle.contains_key(version),
        ensures
            final(self)@ == (EngineState {
                by_commit: counted_down(old(self)@.by_commit, commit),
                by_oracle: counted_down(old(self)@.by_oracle, version),
                ..old(self)@
            }),
            final(self).wf(),
            final(self).same_setup(*old(self)),
    {
        release_at(&mut self.counter_by_commit, commit);
        release_at(&mut self.counter_by_oracle, version);
    }

    /// The least version at which an open transaction reads.
    pub fn earlist_active_version(&self, fallback: u64) -> (r: u64)
        ensures
            r == earliest(self@.by_oracle, fallback),
    {
        earliest_active(&self.counter_by_oracle, fallback)
    }

    /// The least commit number at which an open transaction began.
    pub fn earliest_active_commit(&self, fallback: u64) -> (r: u64)
        ensures
            r == earliest(self@.by_commit, fallback),
    {
        earliest_active(&self.counter_by_commit, fallback)
    }

    /// Takes the records out of the commit queue that lie below the least number at which an open
    /// transaction began: none of those that are open looks at them.
    pub fn run_cleanup_inner(&mut self)
        requires
            old(self).wf(),
        ensures
            final(self)@ == old(self)@.cleaned(),
            final(self).wf(),
            final(self).same_setup(*old(self)),
    {
        let oldest: u64 = self.earliest_active_commit(self.transaction_commit_id);
        let list = commits_range(&self.transaction_commit_queue, 0, oldest);
        let ghost before = old(self)@;
        let mut i: usize = 0;
        while i < list.len()
            invariant
                i <= list@.len(),
                lists_commits(list@, before.commits, 0, oldest),
                self@ == (EngineState { commits: self@.commits, ..before }),
                self.same_setup(*old(self)),
                forall|k: u64|
                    #![trigger self@.commits.contains_key(k)]
                    #![trigger before.commits.contains_key(k)]
                    self@.commits.contains_key(k) == (before.commits.contains_key(k) && forall|
                        j: int,
                    | 0 <= j < i ==> (#[trigger] list@[j]).0 != k),
                forall|k: u64| #[trigger]
                    self@.commits.contains_key(k) ==> self@.commits[k] == before.commits[k],
            decreases list@.len() - i,
        {
            let key: u64 = list[i].0;
            let ghost prior = self@.commits;
            commits_remove(&mut self.transaction_commit_queue, key);
            assert(self@.commits == prior.remove(key));
            assert forall|k: u64|
                #![trigger self@.commits.contains_key(k)]
                #![trigger before.commits.contains_key(k)]
                self@.commits.contains_key(k) == (before.commits.contains_key(k) && forall|j: int|
                    0 <= j < i + 1 ==> (#[trigger] list@[j]).0 != k) by {
                assert(self@.commits.contains_key(k) == (prior.contains_key(k) && k != key));
                assert(list@[i as int].0 == key);
                if k != key && prior.contains_key(k) {
                    assert forall|j: int| 0 <= j < i + 1 implies (#[trigger] list@[j]).0 != k by {}
                }
            }
            i += 1;
        }
        proof {
            let kept = records_from(before.commits, oldest);
            assert forall|k: u64| self@.commits.contains_key(k) == kept.contains_key(k) by {
                if before.commits.contains_key(k) && k < oldest {
                    let j = choose|j: int| 0 <= j < list@.len() && (#[trigger] list@[j]).0 == k;
                    assert(list@[j].0 == k);
                }
            }
            assert(self@.commits =~= kept);
        }
    }

    /// Announces a collection where the clock reads `now`: the version below which nobody reads.
    /// It is capped by the highest version, so that transactions that begin later read above it,
    /// too.
    pub fn compute_cleanup_ts_at(&mut self, now: u64) -> (r: u64)
        requires
            old(self).wf(),
        ensures
            r == old(self)@.cleanup_ts(now),
            final(self)@ == old(self)@.floored(r),
            final(self).wf(),
            final(self).same_setup(*old(self)),
    {
        let earliest_tx: u64 = self.earlist_active_version(now);
        let oracle_now: u64 = self.oracle.current_timestamp();
        let mut proposed: u64 = now;
        if earliest_tx < proposed {
            proposed = earliest_tx;
        }
        if oracle_now < proposed {
            proposed = oracle_now;
        }
        proof {
            assert forall|v: u64| #[trigger] self@.by_oracle.contains_key(v) implies proposed
                <= v by {
                assert(active(self@.by_oracle, v));
                lemma_earliest_exists(self@.by_oracle, v);
                let k = choose|k: u64| is_earliest(self@.by_oracle, k);
                lemma_earliest(self@.by_oracle, now, k);
            }
        }
        if proposed > self.gc_floor {
            self.gc_floor = proposed;
        }
        let earliest_after: u64 = self.earlist_active_version(now);
        if earliest_after < proposed {
            earliest_after
        } else {
            proposed
        }
    }

    /// Announces a collection now.
    pub fn compute_cleanup_ts(&mut self) -> (r: u64)
        requires
            old(self).wf(),
        ensures
            exists|now: u64|
                old(self).clock().reads(now) && r == #[trigger] old(self)@.cleanup_ts(now),
            final(self)@ == old(self)@.floored(r),
            final(self).wf(),
            final(self).same_setup(*old(self)),
    {
        let now: u64 = self.oracle.current_time_ns();
        self.compute_cleanup_ts_at(now)
    }

    /// Collects every key at `cleanup_ts`.
    pub fn run_gc_full(&mut self, cleanup_ts: u64)
        requires
            old(self).wf(),
        ensures
            final(self)@ == old(self)@.collected(cleanup_ts),
            final(self).wf(),
            final(self).same_setup(*old(self)),
    {
        let list = store_iter(&self.datastore);
        let ghost before = old(self)@;
        let ghost mut done: Set<Seq<u8>> = Set::empty();
        let mut i: usize = 0;
        proof {
            lemma_gc_keys_extremes(before.store, done, cleanup_ts);
        }
        while i < list.len()
            invariant
                i <= list@.len(),
                lists_store(list@, before.store),
                before.wf(),
                self.wf(),
                self@ == (EngineState {
                    store: store_gc_keys(before.store, done, cleanup_ts),
                    ..before
                }),
                self.same_setup(*old(self)),
                forall|j: int| 0 <= j < i ==> done.contains(bytes_view(#[trigger] list@[j].0)),
            decreases list@.len() - i,
        {
            let ghost key = bytes_view(list@[i as int].0);
            self.gc_key(&list[i].0, cleanup_ts);
            proof {
                lemma_gc_keys_compose(before.store, done, set![key], cleanup_ts);
                assert(done.union(set![key]) =~= done.insert(key));
                done = done.insert(key);
            }
            i += 1;
        }
        proof {
            assert forall|k: Seq<u8>| #[trigger] before.store.contains_key(k) implies done.contains(
                k,
            ) by {
                let j = choose|j: int| 0 <= j < list@.len() && bytes_view(#[trigger] list@[j].0)
                    == k;
                assert(done.contains(bytes_view(list@[j].0)));
            }
            lemma_gc_keys_extremes(before.store, done, cleanup_ts);
        }
    }

    /// Collects the keys in the queue of those that were written lately, each of them once.
    pub fn run_gc_dirty_inner(&mut self, cleanup_ts: u64)
        requires
            old(self).wf(),
        ensures
            final(self)@ == old(self)@.collected_dirty(cleanup_ts),
            final(self).wf(),
            final(self).same_setup(*old(self)),
    {
        let ghost before = old(self)@;
        let ghost mut taken: int = 0;
        let mut seen = WriteSet::new();
        proof {
            lemma_gc_keys_extremes(before.store, Set::empty(), cleanup_ts);
            assert(before.dirty.take(0).to_set() =~= Set::<Seq<u8>>::empty());
            assert(before.dirty.skip(0) =~= before.dirty);
            assert(seen@.dom() =~= Set::<Seq<u8>>::empty());
        }
        loop
            invariant
                0 <= taken <= before.dirty.len(),
                before.wf(),
                self.wf(),
                self@ == (EngineState {
                    dirty: before.dirty.skip(taken),
                    store: store_gc_keys(
                        before.store,
                        before.dirty.take(taken).to_set(),
                        cleanup_ts,
                    ),
                    ..before
                }),
                self.same_setup(*old(self)),
                seen@.dom() == before.dirty.take(taken).to_set(),
            ensures
                taken == before.dirty.len(),
            decreases before.dirty.len() - taken,
        {
            let key = match dirty_pop(&mut self.gc_dirty_keys) {
                Some(key) => key,
                None => break ,
            };
            let ghost done = before.dirty.take(taken).to_set();
            let ghost k = bytes_view(key);
            proof {
                assert(k == before.dirty[taken]);
                lemma_take_set_step(before.dirty, taken);
                assert(before.dirty.skip(taken).skip(1) =~= before.dirty.skip(taken + 1));
                taken = taken + 1;
            }
            if seen.contains_key(bytes_as_slice(&key)) {
                proof {
                    assert(done.insert(k) =~= done);
                }
                continue ;
            }
            seen.insert(bytes_clone(&key), None);
            self.gc_key(&key, cleanup_ts);
            proof {
                lemma_gc_keys_compose(before.store, done, set![k], cleanup_ts);
                assert(done.union(set![k]) =~= done.insert(k));
                assert(seen@.dom() =~= done.insert(k));
            }
        }
        proof {
            assert(before.dirty.take(taken) =~= before.dirty);
            assert(self@ =~= before.collected_dirty(cleanup_ts));
        }
    }

    /// Collects one key; where nothing is left of it, it leaves the store.
    fn gc_key(&mut self, key: &Bytes, cleanup_ts: u64)
        requires
            old(self).wf(),
        ensures
            final(self)@ == (EngineState {
                store: store_gc_keys(old(self)@.store, set![bytes_view(*key)], cleanup_ts),
                ..old(self)@
            }),
            final(self).wf(),
            final(self).same_setup(*old(self)),
    {
        let ghost before = self@.store;
        let ghost k = bytes_view(*key);
        let slice = bytes_as_slice(key);
        if let Some(chain) = store_get(&self.datastore, slice) {
            let mut versions = chain.duplicate();
            proof {
                lemma_gc_sorted(before[k], cleanup_ts);
            }
            if versions.gc_older_versions(cleanup_ts) == 0 {
                store_remove(&mut self.datastore, slice);
            } else {
                store_insert(&mut self.datastore, bytes_clone(key), Arc::new(versions));
            }
        }
        assert(self@.store =~= store_gc_keys(before, set![k], cleanup_ts));
    }

    /// Takes a number for a record of the commit queue.
    pub fn take_queue_id(&mut self) -> (r: u64)
        requires
            old(self).wf(),
            old(self)@.queue_id < u64::MAX,
        ensures
            r == old(self)@.queue_id + 1,
            final(self)@ == (EngineState { queue_id: r, ..old(self)@ }),
            final(self).wf(),
            final(self).same_setup(*old(self)),
    {
        self.transaction_queue_id = self.transaction_queue_id + 1;
        self.transaction_queue_id
    }

    /// Offers a record to the commit queue under the next commit number. Where another record has
    /// taken that number, nothing happens, and it has to be offered again.
    pub fn offer_commit(&mut self, updates: &Arc<Commit>) -> (r: Option<u64>)
        requires
            old(self)@.commit_id < u64::MAX,
        ensures
            ({
                let version = (old(self)@.commit_id + 1) as u64;
                let record = (updates.number(), updates.writes());
                if !old(self)@.commits.contains_key(version) {
                    &&& r == Some(version)
                    &&& final(self)@ == (EngineState {
                        commit_id: version,
                        commits: old(self)@.commits.insert(version, record),
                        ..old(self)@
                    })
                } else if old(self)@.commits[version].0 == updates.number() {
                    &&& r == Some(version)
                    &&& final(self)@ == (EngineState { commit_id: version, ..old(self)@ })
                } else {
                    r is None && final(self)@ == old(self)@
                }
            }),
            final(self).same_setup(*old(self)),
    {
        let version: u64 = self.transaction_commit_id + 1;
        let entry = commits_get_or_insert(&mut self.transaction_commit_queue, version, updates);
        if entry.id() == updates.id() {
            self.transaction_commit_id = version;
            Some(version)
        } else {
            None
        }
    }

    /// Puts a record into the commit queue, under the next commit number.
    pub fn enqueue_commit(&mut self, updates: Commit) -> (r: (u64, Arc<Commit>))
        requires
            old(self).wf(),
            old(self)@.commit_id < u64::MAX - 1,
        ensures
            r.0 == old(self)@.commit_id + 1,
            *r.1 == updates,
            final(self)@ == (EngineState {
                commit_id: r.0,
                commits: old(self)@.commits.insert(r.0, (updates.number(), updates.writes())),
                ..old(self)@
            }),
            final(self).wf(),
            final(self).same_setup(*old(self)),
    {
        assert(!self@.commits.contains_key((self@.commit_id + 1) as u64));
        let updates = Arc::new(updates);
        match self.offer_commit(&updates) {
            Some(version) => (version, updates),
            None => (self.transaction_commit_id, updates),
        }
    }

    /// Takes a record out of the commit queue.
    pub fn dequeue_commit(&mut self, version: u64)
        requires
            old(self).wf(),
        ensures
            final(self)@ == (EngineState { commits: old(self)@.commits.remove(version), ..old(self)@
            }),
            final(self).wf(),
            final(self).same_setup(*old(self)),
    {
        commits_remove(&mut self.transaction_commit_queue, version);
        assert forall|k: u64| #[trigger] self@.commits.contains_key(k) implies k
            <= self@.commit_id by {
            assert(old(self)@.commits.contains_key(k));
        }
    }

    /// The records of the commit queue from number `lo` up to `hi`, in order.
    pub fn commits_between(&self, lo: u64, hi: u64) -> (r: Vec<(u64, Arc<Commit>)>)
        ensures
            lists_commits(r@, self@.commits, lo, hi),
    {
        commits_range(&self.transaction_commit_queue, lo, hi)
    }

    /// Takes a number for a record of the merge queue.
    pub fn take_merge_id(&mut self) -> (r: u64)
        requires
            old(self).wf(),
            old(self)@.merge_id < u64::MAX,
        ensures
            r == old(self)@.merge_id + 1,
            final(self)@ == (EngineState { merge_id: r, ..old(self)@ }),
            final(self).wf(),
            final(self).same_setup(*old(self)),
    {
        self.transaction_merge_id = self.transaction_merge_id + 1;
        self.transaction_merge_id
    }

    /// Offers a record to the merge queue at a version above all that were handed out: the time,
    /// or the next number where the clock lags behind. Where another record has taken that
    /// version, nothing happens, and it has to be offered again.
    pub fn offer_merge(&mut self, updates: &Arc<Merge>, now: u64) -> (r: Option<u64>)
        requires
            old(self)@.timestamp < u64::MAX,
        ensures
            ({
                let version = old(self)@.next_version(now);
                let record = (updates.id, updates.writeset@);
                if !old(self)@.merges.contains_key(version) {
                    &&& r == Some(version)
                    &&& final(self)@ == (EngineState {
                        timestamp: version,
                        merges: old(self)@.merges.insert(version, record),
                        ..old(self)@
                    })
                } else if old(self)@.merges[version].0 == updates.id {
                    &&& r == Some(version)
                    &&& final(self)@ == (EngineState { timestamp: version, ..old(self)@ })
                } else {
                    r is None && final(self)@ == old(self)@
                }
            }),
            final(self).same_setup(*old(self)),
    {
        let last_ts: u64 = self.oracle.current_timestamp();
        let version: u64 = if now <= last_ts {
            last_ts + 1
        } else {
            now
        };
        let entry = merges_get_or_insert(&mut self.transaction_merge_queue, version, updates);
        if entry.id == updates.id {
            self.oracle.advance(version);
            Some(version)
        } else {
            None
        }
    }

    /// Puts a record into the merge queue, at a version above all that were handed out.
    pub fn enqueue_merge(&mut self, updates: Merge, now: u64) -> (r: (u64, Arc<Merge>))
        requires
            old(self).wf(),
            old(self)@.timestamp < u64::MAX,
        ensures
            r.0 == old(self)@.next_version(now),
            *r.1 == updates,
            final(self)@ == (EngineState {
                timestamp: r.0,
                merges: old(self)@.merges.insert(r.0, (updates.id, updates.writeset@)),
                ..old(self)@
            }),
            final(self).wf(),
            final(self).same_setup(*old(self)),
    {
        assert(!self@.merges.contains_key(self@.next_version(now)));
        let updates = Arc::new(updates);
        match self.offer_merge(&updates, now) {
            Some(version) => (version, updates),
            None => (self.oracle.current_timestamp(), updates),
        }
    }

    /// Takes a record out of the merge queue.
    pub fn remove_merge(&mut self, version: u64)
        requires
            old(self).wf(),
        ensures
            final(self)@ == old(self)@.merged(version),
            final(self).wf(),
            final(self).same_setup(*old(self)),
    {
        merges_remove(&mut self.transaction_merge_queue, version);
        assert forall|v: u64| #[trigger] self@.merges.contains_key(v) implies v
            <= self@.timestamp by {
            assert(old(self)@.merges.contains_key(v));
        }
    }

    /// Writes a value to one key of the store at `version`.
    pub fn write_key(&mut self, key: &Bytes, version: u64, value: &Option<Bytes>)
        requires
            old(self).wf(),
        ensures
            final(self)@ == (EngineState {
                store: old(self)@.store.insert(
                    bytes_view(*key),
                    key_write(old(self)@.store, bytes_view(*key), version, value_view(*value)),
                ),
                ..old(self)@
            }),
            final(self).wf(),
            final(self).same_setup(*old(self)),
    {
        let ghost before = self@.store;
        let ghost k = bytes_view(*key);
        let written = Version { version, value: value_clone(value) };
        proof {
            if before.contains_key(k) {
                lemma_push_sorted(before[k], version, value_view(*value));
            }
        }
        let versions = match store_get(&self.datastore, bytes_as_slice(key)) {
            Some(chain) => {
                let mut versions = chain.duplicate();
                versions.push(written);
                versions
            },
            None => Versions::from(written),
        };
        store_insert(&mut self.datastore, bytes_clone(key), Arc::new(versions));
    }

    /// Writes all of `writeset` to the store at `version`, and notes its keys for collection.
    pub fn write_all(&mut self, version: u64, writeset: &WriteSet)
        requires
            old(self).wf(),
        ensures
            final(self)@ == (EngineState {
                store: store_write(old(self)@.store, version, writeset@),
                dirty: old(self)@.dirty + keys_of(writeset.list()),
                ..old(self)@
            }),
            final(self).wf(),
            final(self).same_setup(*old(self)),
    {
        let n: usize = writeset.len();
        let ghost before = old(self)@;
        let ghost e = writeset.list();
        let mut i: usize = 0;
        proof {
            assert(e.take(0) =~= Seq::empty());
            assert(store_write(before.store, version, map_of(e.take(0))) =~= before.store);
            assert(before.dirty + keys_of(e.take(0)) =~= before.dirty);
        }
        while i < n
            invariant
                i <= n == e.len(),
                e == writeset.list(),
                crate::writeset::entries_sorted(e),
                self.wf(),
                self@ == (EngineState {
                    store: store_write(before.store, version, map_of(e.take(i as int))),
                    dirty: before.dirty + keys_of(e.take(i as int)),
                    ..before
                }),
                self.same_setup(*old(self)),
            decreases n - i,
        {
            let key = writeset.key_at(i);
            let value = writeset.value_at(i);
            let ghost part = e.take(i as int);
            proof {
                lemma_map_of(part);
                if map_of(part).contains_key(e[i as int].0) {
                    let j = choose|j: int| 0 <= j < part.len() && #[trigger] part[j].0
                        == e[i as int].0;
                    assert(crate::kv::lex_lt(e[j].0, e[i as int].0));
                    crate::kv::lemma_lex_irreflexive(e[i as int].0);
                }
                lemma_store_write_step(
                    before.store,
                    version,
                    map_of(part),
                    e[i as int].0,
                    e[i as int].1,
                );
                assert(e.take(i + 1).drop_last() =~= part);
                assert(keys_of(e.take(i + 1)) =~= keys_of(part).push(e[i as int].0));
            }
            self.write_key(key, version, value);
            dirty_push(&mut self.gc_dirty_keys, bytes_clone(key));
            assert(self@.dirty =~= before.dirty + keys_of(e.take(i + 1)));
            i += 1;
        }
        assert(e.take(n as int) =~= e);
    }

    /// The chains that the keys of `writeset` have, in the order of the keys.
    pub fn chains_of(&self, writeset: &WriteSet) -> (r: Vec<Option<Arc<Versions>>>)
        requires
            self.wf(),
        ensures
            r@.len() == writeset.list().len(),
            chains_sorted(r@),
            paired(writeset.list(), r@) == chains_under(self@.store, writeset@),
    {
        let n: usize = writeset.len();
        let ghost e = writeset.list();
        let mut chains: Vec<Option<Arc<Versions>>> = Vec::new();
        let mut i: usize = 0;
        while i < n
            invariant
                i <= n == e.len(),
                e == writeset.list(),
                self.wf(),
                chains@.len() == i,
                forall|j: int|
                    0 <= j < i ==> #[trigger] chain_of(chains@[j]) == (
                    if self@.store.contains_key(e[j].0) {
                        Some(self@.store[e[j].0])
                    } else {
                        None
                    }),
            decreases n - i,
        {
            let found = store_get(&self.datastore, bytes_as_slice(writeset.key_at(i)));
            chains.push(found);
            i += 1;
        }
        proof {
            writeset.lemma_list();
            lemma_map_of(e);
            let former = paired(e, chains@);
            let held = chains_under(self@.store, writeset@);
            assert forall|k: Seq<u8>| former.contains_key(k) == held.contains_key(k) by {}
            assert forall|k: Seq<u8>| former.contains_key(k) implies former[k] == held[k] by {
                let j = choose|j: int| 0 <= j < e.len() && #[trigger] e[j].0 == k;
                assert(former[k] == chain_of(chains@[j]));
            }
            assert(former =~= held);
        }
        chains
    }

    /// Whether a commit with a number above `number` wrote a key. `later` are those commits.
    fn written_since(
        &self,
        later: &Vec<(u64, Arc<Commit>)>,
        Ghost(number): Ghost<u64>,
        key: &[u8],
    ) -> (r: bool)
        requires
            self.wf(),
            number < u64::MAX,
            lists_commits(later@, self@.commits, (number + 1) as u64, u64::MAX),
        ensures
            r == written_after(self@.commits, number, key@),
    {
        let mut i: usize = 0;
        while i < later.len()
            invariant
                i <= later@.len(),
                number < u64::MAX,
                lists_commits(later@, self@.commits, (number + 1) as u64, u64::MAX),
                forall|j: int|
                    0 <= j < i ==> !(#[trigger] later@[j]).1.writes().contains_key(key@),
            decreases later@.len() - i,
        {
            let ghost n = later@[i as int].0;
            assert(self@.commits[n] == (later@[i as int].1.number(), later@[i as int].1.writes()));
            if later[i].1.writes_key(key) {
                assert(self@.commits.contains_key(n));
                return true;
            }
            i += 1;
        }
        proof {
            if written_after(self@.commits, number, key@) {
                let n = choose|n: u64|
                    n > number && #[trigger] self@.commits.contains_key(n)
                        && self@.commits[n].1.contains_key(key@);
                let j = choose|j: int| 0 <= j < later@.len() && (#[trigger] later@[j]).0 == n;
                assert(!later@[j].1.writes().contains_key(key@));
            }
        }
        false
    }

    /// Gives the keys of `writeset` the chains of `former` back, but for keys that a commit with a
    /// number above `number` wrote.
    pub fn put_back(
        &mut self,
        number: u64,
        writeset: &WriteSet,
        former: &Vec<Option<Arc<Versions>>>,
    )
        requires
            old(self).wf(),
            number < u64::MAX,
            former@.len() == writeset.list().len(),
            chains_sorted(former@),
        ensures
            final(self)@ == (EngineState {
                store: store_put_back(
                    old(self)@.store,
                    old(self)@.commits,
                    number,
                    paired(writeset.list(), former@),
                ),
                ..old(self)@
            }),
            final(self).wf(),
            final(self).same_setup(*old(self)),
    {
        let n: usize = writeset.len();
        let ghost e = writeset.list();
        let ghost before = old(self)@;
        let ghost chains = paired(e, former@);
        let later = commits_range(&self.transaction_commit_queue, number + 1, u64::MAX);
        let mut i: usize = 0;
        while i < n
            invariant
                i <= n == e.len(),
                e == writeset.list(),
                crate::writeset::entries_sorted(e),
                before == old(self)@,
                before.wf(),
                chains == paired(e, former@),
                number < u64::MAX,
                former@.len() == e.len(),
                chains_sorted(former@),
                lists_commits(later@, before.commits, (number + 1) as u64, u64::MAX),
                self.wf(),
                self.same_setup(*old(self)),
                self@ == (EngineState { store: self@.store, ..before }),
                forall|j: int|
                    #![trigger e[j]]
                    0 <= j < i && !written_after(before.commits, number, e[j].0) ==> {
                        &&& self@.store.contains_key(e[j].0) == chains[e[j].0] is Some
                        &&& chains[e[j].0] is Some ==> self@.store[e[j].0] == chains[e[j].0]->0
                    },
                forall|k: Seq<u8>|
                    #![trigger self@.store.contains_key(k)]
                    #![trigger self@.store[k]]
                    written_after(before.commits, number, k) || (forall|j: int|
                        0 <= j < i ==> #[trigger] e[j].0 != k) ==> self@.store.contains_key(k)
                        == before.store.contains_key(k) && (before.store.contains_key(k)
                        ==> self@.store[k] == before.store[k]),
            decreases n - i,
        {
            let key = writeset.key_at(i);
            let slice = bytes_as_slice(key);
            let ghost k = bytes_view(*key);
            let ghost prior = self@.store;
            proof {
                lemma_paired(e, former@, i as int);
                assert forall|j: int| 0 <= j < i implies #[trigger] e[j].0 != k by {
                    assert(crate::kv::lex_lt(e[j].0, e[i as int].0));
                    crate::kv::lemma_lex_irreflexive(k);
                }
                assert(chain_of(former@[i as int]) == chains[k]);
            }
            if !self.written_since(&later, Ghost(number), slice) {
                match &former[i] {
                    Some(c) => {
                        store_insert(&mut self.datastore, bytes_clone(key), arc_clone(c));
                        assert(chain_of(former@[i as int]) == Some(c@));
                        assert(self@.store == prior.insert(k, c@));
                    },
                    None => {
                        store_remove(&mut self.datastore, slice);
                        assert(self@.store == prior.remove(k));
                    },
                }
            }
            assert forall|x: Seq<u8>| #[trigger] self@.store.contains_key(x) implies chain_sorted(
                self@.store[x],
            ) by {
                assert(x == k || prior.contains_key(x));
            }
            i += 1;
        }
        proof {
            let want = store_put_back(before.store, before.commits, number, chains);
            assert forall|k: Seq<u8>|
                self@.store.contains_key(k) == want.contains_key(k) && (want.contains_key(k)
                    ==> self@.store[k] == want[k]) by {
                if chains.contains_key(k) && !written_after(before.commits, number, k) {
                    let j = choose|j: int| 0 <= j < e.len() && #[trigger] e[j].0 == k;
                    assert(e[j].0 == k);
                }
            }
            assert(self@.store =~= want);
        }
    }

    /// Every key of the store with its chain, in the order of the keys.
    pub fn entries(&self) -> (r: Vec<(Bytes, Arc<Versions>)>)
        ensures
            lists_store(r@, self@.store),
    {
        store_iter(&self.datastore)
    }

    /// Gives a key of the store this chain, in place of the one that it had.
    pub fn insert_chain(&mut self, key: Bytes, versions: Versions)
        requires
            old(self).wf(),
            versions.wf(),
        ensures
            final(self)@ == (EngineState {
                store: old(self)@.store.insert(bytes_view(key), versions@),
                ..old(self)@
            }),
            final(self).wf(),
            final(self).same_setup(*old(self)),
    {
        store_insert(&mut self.datastore, key, Arc::new(versions));
    }

    /// The newest write to a key in the merge queue at `version` or before.
    fn fetch_pending(&self, key: &[u8], version: u64) -> (r: Option<Option<Bytes>>)
        ensures
            match r {
                Some(v) => pending(self@.merges, key@, version as int) == Some(value_view(v)),
                None => pending(self@.merges, key@, version as int) is None,
            },
    {
        let list = merges_range(&self.transaction_merge_queue, version);
        let ghost m = self@.merges;
        let mut i: usize = list.len();
        proof {
            lemma_pending_skip(m, key@, version as int, version as int, list@, list@.len() as int);
        }
        while i > 0
            invariant
                i <= list@.len(),
                m == self@.merges,
                lists_merges(list@, m, version),
                pending(m, key@, version as int) == pending(
                    m,
                    key@,
                    if i == 0 {
                        -1
                    } else {
                        list@[i - 1].0 as int
                    },
                ),
            decreases i,
        {
            i -= 1;
            let record = &list[i].1;
            assert(m[list@[i as int].0] == (record.id, record.writeset@));
            if let Some(v) = record.writeset.get(key) {
                return Some(value_clone(v));
            }
            proof {
                lemma_pending_skip(
                    m,
                    key@,
                    list@[i as int].0 - 1,
                    version as int,
                    list@,
                    i as int,
                );
            }
        }
        None
    }

    /// What is visible under a key at `version`.
    pub fn fetch_in_datastore(&self, key: &[u8], version: u64) -> (r: Option<Bytes>)
        requires
            self.wf(),
        ensures
            value_view(r) == self@.visible(key@, version),
    {
        if let Some(v) = self.fetch_pending(key, version) {
            return v;
        }
        match store_get(&self.datastore, key) {
            Some(chain) => chain.fetch_version(version),
            None => None,
        }
    }

    /// Whether something is visible under a key at `version`.
    pub fn exists_in_datastore(&self, key: &[u8], version: u64) -> (r: bool)
        requires
            self.wf(),
        ensures
            r == (self@.visible(key@, version) is Some),
    {
        if let Some(v) = self.fetch_pending(key, version) {
            return v.is_some();
        }
        match store_get(&self.datastore, key) {
            Some(chain) => chain.exists_version(version),
            None => false,
        }
    }
}

impl Default for Inner {
    fn default() -> (r: Self)
        ensures
            r@ == EngineState::fresh(r@.timestamp),
            r.wf(),
            r@.timestamp == r.clock().anchor(),
            r.clock().is_anchored(),
            r.threshold() == crate::options::DEFAULT_RESET_THRESHOLD,
            crate::time::duration_nanos(r.clock().interval()) == 5_000_000_000,
    {
        Inner::new(&DatabaseOptions::default())
    }
}

/// Where open transactions are counted, there is a least number at which they are.
pub proof fn lemma_earliest_exists(m: Map<u64, u64>, k: u64)
    requires
        active(m, k),
    ensures
        exists|e: u64| is_earliest(m, e),
    decreases k,
{
    if exists|j: u64| j < k && active(m, j) {
        let j = choose|j: u64| j < k && active(m, j);
        lemma_earliest_exists(m, j);
    } else {
        assert(is_earliest(m, k));
    }
}

/// Between two neighbours in a list of the merge queue there is nothing to find.
proof fn lemma_pending_skip(
    m: Map<u64, (u64, WritesModel)>,
    key: Seq<u8>,
    t: int,
    hi: int,
    list: Seq<(u64, Arc<Merge>)>,
    i: int,
)
    requires
        -1 <= t <= hi <= u64::MAX,
        0 <= i <= list.len(),
        lists_merges(list, m, hi as u64),
        forall|j: int| i <= j < list.len() ==> (#[trigger] list[j]).0 > t,
        i > 0 ==> list[i - 1].0 <= t,
    ensures
        pending(m, key, t) == pending(
            m,
            key,
            if i == 0 {
                -1
            } else {
                list[i - 1].0 as int
            },
        ),
    decreases t + 1,
{
    if t >= 0 && (i == 0 || list[i - 1].0 < t) {
        if m.contains_key(t as u64) {
            let j = choose|j: int| 0 <= j < list.len() && (#[trigger] list[j]).0 == t as u64;
            assert(list[j].0 == t);
        }
        lemma_pending_skip(m, key, t - 1, hi, list, i);
    }
}

/// Taking one more element adds it to the set of those taken.
proof fn lemma_take_set_step(s: Seq<Seq<u8>>, n: int)
    requires
        0 <= n < s.len(),
    ensures
        s.take(n + 1).to_set() == s.take(n).to_set().insert(s[n]),
{
    let longer = s.take(n + 1);
    let shorter = s.take(n);
    let a = longer.to_set();
    let b = shorter.to_set().insert(s[n]);
    assert forall|x: Seq<u8>| a.contains(x) == b.contains(x) by {
        if longer.contains(x) {
            let i = choose|i: int| 0 <= i < longer.len() && longer[i] == x;
            if i < n {
                assert(shorter[i] == x);
            }
        }
        if shorter.contains(x) {
            let i = choose|i: int| 0 <= i < shorter.len() && shorter[i] == x;
            assert(longer[i] == x);
        }
        assert(longer[n] == s[n]);
    }
    assert(a =~= b);
}

/// The keys of a list are those of its entries, in order.
pub proof fn law_keys_are_those_of_the_entries(e: EntriesModel)
    ensures
        keys_of(e).len() == e.len(),
        forall|i: int| 0 <= i < e.len() ==> #[trigger] keys_of(e)[i] == e[i].0,
{
}

/// A key of a sorted list is paired with the chain that stands in its place, or with none; other
/// keys are not paired.
pub proof fn law_keys_are_paired_by_place(
    e: EntriesModel,
    chains: Seq<Option<Arc<Versions>>>,
    key: Seq<u8>,
)
    requires
        crate::writeset::entries_sorted(e),
        chains.len() == e.len(),
    ensures
        forall|i: int|
            0 <= i < e.len() ==> paired(e, chains).contains_key(#[trigger] e[i].0) && (
            chains[i] matches Some(c) ==> paired(e, chains)[e[i].0] == Some(c@)) && (
            chains[i] is None ==> paired(e, chains)[e[i].0] is None),
        (forall|i: int| 0 <= i < e.len() ==> #[trigger] e[i].0 != key) ==> !paired(
            e,
            chains,
        ).contains_key(key),
{
    assert forall|i: int| 0 <= i < e.len() implies paired(e, chains).contains_key(
        #[trigger] e[i].0,
    ) && paired(e, chains)[e[i].0] == chain_of(chains[i]) by {
        lemma_paired(e, chains, i);
    }
}

} // verus!
