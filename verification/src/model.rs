//! The model of the engine: what its state is, what a transaction sees in it, and what beginning,
//! committing, releasing and collecting do to it.

use vstd::prelude::*;

use crate::chain::{chain_gc, chain_push, chain_sorted, read_at, ChainModel};

verus! {

/// The value of a counter that is being taken away; no transaction may register on it.
pub const COUNTER_TOMBSTONE: u64 = u64::MAX;

/// Keys with what is written to them.
pub type WritesModel = Map<Seq<u8>, Option<Seq<u8>>>;

/// The store: every key with its chain.
pub type StoreModel = Map<Seq<u8>, ChainModel>;

/// Keys with the chains that they had at some time, `None` where they were not in the store.
pub type FormerModel = Map<Seq<u8>, Option<ChainModel>>;

/// The state of the engine.
#[verifier::ext_equal]
pub struct EngineState {
    /// The highest version handed out.
    pub timestamp: u64,
    /// The highest commit number handed out.
    pub commit_id: u64,
    /// How many records went to the commit queue.
    pub queue_id: u64,
    /// How many records went to the merge queue.
    pub merge_id: u64,
    /// The commit queue: under every commit number a record's own number and its writes.
    pub commits: Map<u64, (u64, WritesModel)>,
    /// The merge queue: at every version a record's own number and its writes.
    pub merges: Map<u64, (u64, WritesModel)>,
    /// How many open transactions began at a commit number.
    pub by_commit: Map<u64, u64>,
    /// How many open transactions read at a version.
    pub by_oracle: Map<u64, u64>,
    /// No version at or above this one, and visible there, was ever dropped.
    pub gc_floor: u64,
    /// The keys that were written since they were last collected, oldest write first.
    pub dirty: Seq<Seq<u8>>,
    /// The store.
    pub store: StoreModel,
}

/// The state of a transaction.
#[verifier::ext_equal]
pub struct TxState {
    /// Whether reads are checked at commit, too.
    pub ssi: bool,
    /// Whether it was committed or cancelled.
    pub done: bool,
    /// Whether it may write.
    pub write: bool,
    /// The commit number at which it began.
    pub commit: u64,
    /// The version at which it reads.
    pub version: u64,
    /// The keys that it read.
    pub reads: Set<Seq<u8>>,
    /// What it wrote.
    pub writes: WritesModel,
}

/// How a commit fares against the transactions that committed since it began.
pub enum Verdict {
    /// No conflict.
    Clear,
    /// One of them wrote a key that it wrote.
    WriteConflict,
    /// One of them wrote a key that it read.
    ReadConflict,
}

/// What committing a transaction comes to.
pub enum Outcome {
    /// It was closed before: nothing happens.
    Closed,
    /// It wrote nothing: it closes.
    Empty,
    /// It is refused for a write.
    WriteConflict,
    /// It is refused for a read.
    ReadConflict,
    /// Its writes reach the store.
    Applied,
}

/// The counters are those of open transactions: each is at least 1 and none is marked as dead.
pub open spec fn counters_live(m: Map<u64, u64>, top: u64) -> bool {
    forall|k: u64| #[trigger] m.contains_key(k) ==> k <= top && 1 <= m[k] < COUNTER_TOMBSTONE
}

/// Every chain of a store is sorted.
pub open spec fn store_sorted(store: StoreModel) -> bool {
    forall|k: Seq<u8>| #[trigger] store.contains_key(k) ==> chain_sorted(store[k])
}

impl EngineState {
    /// What every operation keeps: numbers and versions that are in use were handed out, no open
    /// transaction reads below the floor of collection, and chains are sorted.
    pub open spec fn wf(self) -> bool {
        &&& self.gc_floor <= self.timestamp
        &&& self.commit_id < u64::MAX
        &&& forall|k: u64| #[trigger] self.commits.contains_key(k) ==> k <= self.commit_id
        &&& forall|v: u64| #[trigger] self.merges.contains_key(v) ==> v <= self.timestamp
        &&& counters_live(self.by_commit, self.commit_id)
        &&& counters_live(self.by_oracle, self.timestamp)
        &&& forall|v: u64| #[trigger] self.by_oracle.contains_key(v) ==> self.gc_floor <= v
        &&& store_sorted(self.store)
    }

    /// The counters have room for one more transaction.
    pub open spec fn can_begin(self) -> bool {
        &&& count_of(self.by_commit, self.commit_id) < COUNTER_TOMBSTONE - 1
        &&& count_of(self.by_oracle, self.timestamp) < COUNTER_TOMBSTONE - 1
    }

    /// There are numbers and versions left for one more commit.
    pub open spec fn can_commit(self) -> bool {
        &&& self.commit_id < u64::MAX - 1
        &&& self.queue_id < u64::MAX
        &&& self.merge_id < u64::MAX
        &&& self.timestamp < u64::MAX
    }

    /// The transaction is registered as an open one.
    pub open spec fn registered(self, tx: TxState) -> bool {
        self.by_commit.contains_key(tx.commit) && self.by_oracle.contains_key(tx.version)
    }

    /// The engine after a transaction began.
    pub open spec fn begun(self) -> EngineState {
        EngineState {
            by_commit: counted_up(self.by_commit, self.commit_id),
            by_oracle: counted_up(self.by_oracle, self.timestamp),
            ..self
        }
    }

    /// The engine after a transaction was released.
    pub open spec fn released(self, tx: TxState) -> EngineState {
        EngineState {
            by_commit: counted_down(self.by_commit, tx.commit),
            by_oracle: counted_down(self.by_oracle, tx.version),
            ..self
        }
    }

    /// The version of the next commit, where the clock reads `now`.
    pub open spec fn next_version(self, now: u64) -> u64 {
        if now <= self.timestamp {
            (self.timestamp + 1) as u64
        } else {
            now
        }
    }

    /// The engine after a commit was refused: only the numbers that it took are gone.
    pub open spec fn refused(self) -> EngineState {
        EngineState {
            commit_id: (self.commit_id + 1) as u64,
            queue_id: (self.queue_id + 1) as u64,
            ..self
        }
    }

    /// The engine after a commit reached the store, with its record still in the merge queue.
    /// `keys` are the keys that were written, in order.
    pub open spec fn applied(self, writes: WritesModel, keys: Seq<Seq<u8>>, now: u64) -> EngineState {
        let version = self.next_version(now);
        EngineState {
            commit_id: (self.commit_id + 1) as u64,
            queue_id: (self.queue_id + 1) as u64,
            merge_id: (self.merge_id + 1) as u64,
            timestamp: version,
            commits: self.commits.insert(
                (self.commit_id + 1) as u64,
                ((self.queue_id + 1) as u64, writes),
            ),
            merges: self.merges.insert(version, ((self.merge_id + 1) as u64, writes)),
            dirty: self.dirty + keys,
            store: store_write(self.store, version, writes),
            ..self
        }
    }

    /// The engine after the record of a commit left the merge queue.
    pub open spec fn merged(self, version: u64) -> EngineState {
        EngineState { merges: self.merges.remove(version), ..self }
    }

    /// The engine after the commit with number `number` and version `version` was taken back: its
    /// records are gone, and the keys of `former` have those chains again, but for keys that a
    /// later commit wrote.
    pub open spec fn rolled_back(
        self,
        number: u64,
        version: u64,
        former: FormerModel,
    ) -> EngineState {
        EngineState {
            commits: self.commits.remove(number),
            merges: self.merges.remove(version),
            store: store_put_back(self.store, self.commits, number, former),
            ..self
        }
    }

    /// The engine after a commit was taken back because it could not be logged: the numbers and
    /// the version that it took are gone, and its keys will be collected. `keys` are the keys that
    /// were written, in order.
    pub open spec fn unlogged(self, keys: Seq<Seq<u8>>, now: u64) -> EngineState {
        EngineState {
            commit_id: (self.commit_id + 1) as u64,
            queue_id: (self.queue_id + 1) as u64,
            merge_id: (self.merge_id + 1) as u64,
            timestamp: self.next_version(now),
            dirty: self.dirty + keys,
            ..self
        }
    }

    /// How a commit of `tx` fares.
    pub open spec fn verdict(self, tx: TxState) -> Verdict {
        verdict_from(self.commits, tx.commit + 1, self.commit_id + 1, tx.footprint())
    }

    /// What committing `tx` comes to.
    pub open spec fn outcome(self, tx: TxState) -> Outcome {
        if tx.done {
            Outcome::Closed
        } else if tx.writes.dom() == Set::<Seq<u8>>::empty() {
            Outcome::Empty
        } else {
            match self.verdict(tx) {
                Verdict::WriteConflict => Outcome::WriteConflict,
                Verdict::ReadConflict => Outcome::ReadConflict,
                Verdict::Clear => Outcome::Applied,
            }
        }
    }

    /// The engine after `tx` was committed where the clock reads `now`, with the record of the
    /// commit still in the merge queue where there is one. `keys` are the keys that were written,
    /// in order.
    pub open spec fn commit_started(self, tx: TxState, keys: Seq<Seq<u8>>, now: u64) -> EngineState {
        match self.outcome(tx) {
            Outcome::Closed | Outcome::Empty => self,
            Outcome::WriteConflict | Outcome::ReadConflict => self.refused(),
            Outcome::Applied => self.applied(tx.writes, keys, now),
        }
    }

    /// The engine after `tx` was committed where the clock reads `now`.
    pub open spec fn committed(self, tx: TxState, keys: Seq<Seq<u8>>, now: u64) -> EngineState {
        match self.outcome(tx) {
            Outcome::Applied => self.applied(tx.writes, keys, now).merged(self.next_version(now)),
            _ => self.commit_started(tx, keys, now),
        }
    }

    /// What is visible under a key at version `t`: writes on their way to the store come first,
    /// the newest of them before the others.
    pub open spec fn visible(self, key: Seq<u8>, t: u64) -> Option<Seq<u8>> {
        match pending(self.merges, key, t as int) {
            Some(v) => v,
            None => store_read(self.store, key, t as int),
        }
    }

    /// What a transaction reads under a key: its own write, or else what is visible at its
    /// version.
    pub open spec fn read(self, tx: TxState, key: Seq<u8>) -> Option<Seq<u8>> {
        if tx.write && tx.writes.contains_key(key) {
            tx.writes[key]
        } else {
            self.visible(key, tx.version)
        }
    }

    /// The version below which nobody reads, where the clock reads `now`.
    pub open spec fn cleanup_ts(self, now: u64) -> u64 {
        min2(min2(now, earliest(self.by_oracle, now)), self.timestamp)
    }

    /// The engine after a collection at `ts` was announced.
    pub open spec fn floored(self, ts: u64) -> EngineState {
        EngineState { gc_floor: max2(self.gc_floor, ts), ..self }
    }

    /// The engine after every key was collected at `ts`.
    pub open spec fn collected(self, ts: u64) -> EngineState {
        EngineState { store: store_gc(self.store, ts), ..self }
    }

    /// The engine after the keys in the queue were collected at `ts`.
    pub open spec fn collected_dirty(self, ts: u64) -> EngineState {
        EngineState {
            dirty: Seq::empty(),
            store: store_gc_keys(self.store, self.dirty.to_set(), ts),
            ..self
        }
    }

    /// The engine after a collection at `ts` was announced and every key was collected.
    pub open spec fn gced(self, ts: u64) -> EngineState {
        EngineState {
            gc_floor: max2(self.gc_floor, ts),
            dirty: Seq::empty(),
            store: store_gc(self.store, ts),
            ..self
        }
    }

    /// The engine after the records that no open transaction has to look at left the commit
    /// queue.
    pub open spec fn cleaned(self) -> EngineState {
        EngineState {
            commits: records_from(self.commits, earliest(self.by_commit, self.commit_id)),
            ..self
        }
    }

    /// The empty engine at a version.
    pub open spec fn fresh(timestamp: u64) -> EngineState {
        EngineState {
            timestamp,
            commit_id: 0,
            queue_id: 0,
            merge_id: 0,
            commits: Map::empty(),
            merges: Map::empty(),
            by_commit: Map::empty(),
            by_oracle: Map::empty(),
            gc_floor: 0,
            dirty: Seq::empty(),
            store: Map::empty(),
        }
    }
}

impl TxState {
    /// A transaction that begins in state `s`.
    pub open spec fn opened(s: EngineState, write: bool) -> TxState {
        TxState {
            ssi: false,
            done: false,
            write,
            commit: s.commit_id,
            version: s.timestamp,
            reads: Set::empty(),
            writes: Map::empty(),
        }
    }

    /// What a commit of the transaction is checked for.
    pub open spec fn footprint(self) -> Footprint {
        Footprint { ssi: self.ssi, reads: self.reads, writes: self.writes }
    }

    /// The transaction after it looked a key up: a read that is checked at commit is noted.
    pub open spec fn noted(self, key: Seq<u8>) -> TxState {
        if self.write && !self.writes.contains_key(key) && self.ssi {
            TxState { reads: self.reads.insert(key), ..self }
        } else {
            self
        }
    }

    /// The transaction after it wrote a key.
    pub open spec fn wrote(self, key: Seq<u8>, value: Option<Seq<u8>>) -> TxState {
        TxState { writes: self.writes.insert(key, value), ..self }
    }

    /// The transaction after it tried to commit and that came to `outcome`.
    pub open spec fn after_commit(self, outcome: Outcome) -> TxState {
        match outcome {
            Outcome::Closed => self,
            Outcome::Empty => TxState { done: true, ..self },
            _ => self.closed(),
        }
    }

    /// The transaction after it was closed: its writes are gone, and its reads, too, where they
    /// are kept.
    pub open spec fn closed(self) -> TxState {
        TxState {
            done: true,
            writes: Map::empty(),
            reads: if self.ssi {
                Set::empty()
            } else {
                self.reads
            },
            ..self
        }
    }
}

/// The value of a counter, 0 where there is none.
pub open spec fn count_of(m: Map<u64, u64>, k: u64) -> u64 {
    if m.contains_key(k) {
        m[k]
    } else {
        0
    }
}

/// One more at `k`.
pub open spec fn counted_up(m: Map<u64, u64>, k: u64) -> Map<u64, u64> {
    m.insert(k, (count_of(m, k) + 1) as u64)
}

/// One less at `k`; a counter that would be 0 goes away.
pub open spec fn counted_down(m: Map<u64, u64>, k: u64) -> Map<u64, u64> {
    if count_of(m, k) > 1 {
        m.insert(k, (m[k] - 1) as u64)
    } else {
        m.remove(k)
    }
}

/// The lesser of two numbers.
pub open spec fn min2(a: u64, b: u64) -> u64 {
    if a <= b {
        a
    } else {
        b
    }
}

/// The greater of two numbers.
pub open spec fn max2(a: u64, b: u64) -> u64 {
    if a >= b {
        a
    } else {
        b
    }
}

/// Open transactions are counted at `k`.
pub open spec fn active(m: Map<u64, u64>, k: u64) -> bool {
    m.contains_key(k) && m[k] != 0 && m[k] != COUNTER_TOMBSTONE
}

/// `k` is the least number at which open transactions are counted.
pub open spec fn is_earliest(m: Map<u64, u64>, k: u64) -> bool {
    active(m, k) && forall|j: u64| #[trigger] active(m, j) ==> k <= j
}

/// The least number at which open transactions are counted, or `fallback` where there are none.
pub open spec fn earliest(m: Map<u64, u64>, fallback: u64) -> u64 {
    if exists|k: u64| is_earliest(m, k) {
        choose|k: u64| is_earliest(m, k)
    } else {
        fallback
    }
}

/// The records of a queue from number `from` on.
pub open spec fn records_from(m: Map<u64, (u64, WritesModel)>, from: u64) -> Map<
    u64,
    (u64, WritesModel),
> {
    Map::new(|k: u64| m.contains_key(k) && k >= from, |k: u64| m[k])
}

/// What a commit is checked for: its writes, and its reads where `ssi` is set.
#[verifier::ext_equal]
pub struct Footprint {
    pub ssi: bool,
    pub reads: Set<Seq<u8>>,
    pub writes: WritesModel,
}

/// Whether a record holds a write to a key that is written.
pub open spec fn writes_clash(record: (u64, WritesModel), f: Footprint) -> bool {
    !record.1.dom().disjoint(f.writes.dom())
}

/// Whether a record holds a write to a key that is read, where that counts.
pub open spec fn reads_clash(record: (u64, WritesModel), f: Footprint) -> bool {
    f.ssi && !record.1.dom().disjoint(f.reads)
}

/// How a commit fares against the records from number `lo` up to `hi`: the first one that clashes
/// decides, and of that one the writes before the reads.
pub open spec fn verdict_from(
    commits: Map<u64, (u64, WritesModel)>,
    lo: int,
    hi: int,
    f: Footprint,
) -> Verdict
    decreases hi - lo,
{
    if lo >= hi {
        Verdict::Clear
    } else if commits.contains_key(lo as u64) && writes_clash(commits[lo as u64], f) {
        Verdict::WriteConflict
    } else if commits.contains_key(lo as u64) && reads_clash(commits[lo as u64], f) {
        Verdict::ReadConflict
    } else {
        verdict_from(commits, lo + 1, hi, f)
    }
}

/// The newest write to a key in the merge queue, at version `t` or before.
pub open spec fn pending(merges: Map<u64, (u64, WritesModel)>, key: Seq<u8>, t: int) -> Option<
    Option<Seq<u8>>,
>
    decreases t + 1,
{
    if t < 0 {
        None
    } else if merges.contains_key(t as u64) && merges[t as u64].1.contains_key(key) {
        Some(merges[t as u64].1[key])
    } else {
        pending(merges, key, t - 1)
    }
}

/// What is visible in the store under a key at `t`.
pub open spec fn store_read(store: StoreModel, key: Seq<u8>, t: int) -> Option<Seq<u8>> {
    if store.contains_key(key) {
        read_at(store[key], t)
    } else {
        None
    }
}

/// The chain of a key after a write to it: a key that was not there starts with the write, even
/// with a deletion.
pub open spec fn key_write(
    store: StoreModel,
    key: Seq<u8>,
    version: u64,
    value: Option<Seq<u8>>,
) -> ChainModel {
    if store.contains_key(key) {
        chain_push(store[key], version, value)
    } else {
        seq![(version, value)]
    }
}

/// The store after all of `writes` were written at `version`.
pub open spec fn store_write(store: StoreModel, version: u64, writes: WritesModel) -> StoreModel {
    Map::new(
        |k: Seq<u8>| store.contains_key(k) || writes.contains_key(k),
        |k: Seq<u8>|
            if writes.contains_key(k) {
                key_write(store, k, version, writes[k])
            } else {
                store[k]
            },
    )
}

/// What a store holds under the keys of `writes`.
pub open spec fn chains_under(store: StoreModel, writes: WritesModel) -> FormerModel {
    Map::new(
        |k: Seq<u8>| writes.contains_key(k),
        |k: Seq<u8>|
            if store.contains_key(k) {
                Some(store[k])
            } else {
                None
            },
    )
}

/// A commit with a number above `number` wrote a key.
pub open spec fn written_after(
    commits: Map<u64, (u64, WritesModel)>,
    number: u64,
    key: Seq<u8>,
) -> bool {
    exists|n: u64|
        n > number && #[trigger] commits.contains_key(n) && commits[n].1.contains_key(key)
}

/// The store after the keys of `former` got those chains back, but for keys that a commit with a
/// number above `number` wrote.
pub open spec fn store_put_back(
    store: StoreModel,
    commits: Map<u64, (u64, WritesModel)>,
    number: u64,
    former: FormerModel,
) -> StoreModel {
    Map::new(
        |k: Seq<u8>|
            if former.contains_key(k) && !written_after(commits, number, k) {
                former[k] is Some
            } else {
                store.contains_key(k)
            },
        |k: Seq<u8>|
            if former.contains_key(k) && !written_after(commits, number, k) {
                former[k]->0
            } else {
                store[k]
            },
    )
}

/// The store after every key was collected at `ts`: a key whose chain is empty then goes away.
pub open spec fn store_gc(store: StoreModel, ts: u64) -> StoreModel {
    Map::new(
        |k: Seq<u8>| store.contains_key(k) && chain_gc(store[k], ts).len() > 0,
        |k: Seq<u8>| chain_gc(store[k], ts),
    )
}

/// The store after the keys in `keys` were collected at `ts`.
pub open spec fn store_gc_keys(store: StoreModel, keys: Set<Seq<u8>>, ts: u64) -> StoreModel {
    Map::new(
        |k: Seq<u8>|
            store.contains_key(k) && (keys.contains(k) ==> chain_gc(store[k], ts).len() > 0),
        |k: Seq<u8>|
            if keys.contains(k) {
                chain_gc(store[k], ts)
            } else {
                store[k]
            },
    )
}

} // verus!
