//! Transactions: their own state, what they read and write, and how they commit.

use bytes::Bytes;
use papaya::HashSet;
use std::sync::Arc;
use vstd::prelude::*;

use crate::bloom::{law_no_false_negative, BloomFilter};
use crate::error::{Error, PersistenceError};
use crate::inner::{chains_sorted, keys_of, paired, Inner};
use crate::kv::{bytes_from_slice, value_clone, value_view, IntoBytes};
use crate::model::{
    chains_under, verdict_from, EngineState, Footprint, FormerModel, Outcome, TxState, Verdict,
    WritesModel,
};
use crate::queue::{Commit, Merge};
use crate::readset::{keyset_clear, keyset_contains, keyset_insert, keyset_new, keyset_view};
use crate::skip::lists_commits;
use crate::versions::Versions;
use crate::writeset::{entries_sorted, map_of, EntriesModel, WriteSet};

verus! {

/// What a transaction is checked for when it commits.
#[derive(Debug, Clone, Copy, PartialEq, Eq, PartialOrd, Structural)]
pub enum IsolationLevel {
    /// Its writes are checked against those of others.
    SnapshotIsolation,
    /// Its reads are checked, too.
    SerializableSnapshotIsolation,
}

/// How to wait before a record is offered to a queue again.
#[derive(Debug, Clone, Copy, PartialEq, Eq, Structural)]
pub enum Backoff {
    /// Keep the processor, and tell it so.
    Spin,
    /// Let another thread run.
    Yield,
    /// Sleep for this many microseconds.
    Park(u64),
}

/// How to wait before a record is offered to a queue again, after it was refused `spins` times
/// before: the longer it takes, the more is given up.
pub fn backoff(spins: usize) -> (r: Backoff)
    ensures
        r == (if spins < 10 {
            Backoff::Spin
        } else if spins < 100 {
            Backoff::Yield
        } else {
            Backoff::Park(10)
        }),
{
    if spins < 10 {
        Backoff::Spin
    } else if spins < 100 {
        Backoff::Yield
    } else {
        Backoff::Park(10)
    }
}

/// A commit whose writes have reached the store, and which waits for the log.
pub struct PendingCommit {
    /// The version of the writes.
    pub version: u64,
    /// The writes.
    pub writeset: Arc<WriteSet>,
    /// The number of the commit.
    pub number: u64,
    /// The chains that the keys had before they were written, in the order of the keys.
    pub former: Vec<Option<Arc<Versions>>>,
}

impl PendingCommit {
    /// There is a chain for every write, or the mark that there was none.
    pub open spec fn wf(&self) -> bool {
        &&& self.number < u64::MAX
        &&& self.former@.len() == self.writeset.list().len()
        &&& chains_sorted(self.former@)
    }

    /// The chains that the keys had before they were written.
    pub open spec fn former_chains(&self) -> FormerModel {
        paired(self.writeset.list(), self.former@)
    }

    /// This is the commit of `writes`, which are `list` in the order of the keys, in state `s`
    /// where the clock reads `now`.
    pub open spec fn is_commit_of(
        &self,
        s: EngineState,
        writes: WritesModel,
        list: EntriesModel,
        now: u64,
    ) -> bool {
        &&& self.wf()
        &&& self.version == s.next_version(now)
        &&& self.number == s.commit_id + 1
        &&& self.writeset@ == writes
        &&& self.writeset.list() == list
        &&& self.former_chains() == chains_under(s.store, writes)
    }

    /// The engine after this commit ended: where it was not logged, it is taken back.
    pub open spec fn ended(&self, s: EngineState, logged: bool) -> EngineState {
        if logged {
            s.merged(self.version)
        } else {
            s.rolled_back(self.number, self.version, self.former_chains())
        }
    }
}

/// The state of a transaction.
pub struct TransactionInner {
    mode: IsolationLevel,
    done: bool,
    write: bool,
    commit: u64,
    version: u64,
    readset: HashSet<Bytes>,
    readset_bloom: BloomFilter,
    writeset: WriteSet,
}

impl View for TransactionInner {
    type V = TxState;

    closed spec fn view(&self) -> TxState {
        TxState {
            ssi: self.mode == IsolationLevel::SerializableSnapshotIsolation,
            done: self.done,
            write: self.write,
            commit: self.commit,
            version: self.version,
            reads: keyset_view(self.readset),
            writes: self.writeset@,
        }
    }
}

/// Nothing lies between `lo` and `next`, so the verdict can start at `next`.
proof fn lemma_verdict_skip(
    m: Map<u64, (u64, WritesModel)>,
    lo: int,
    next: int,
    hi: int,
    f: Footprint,
)
    requires
        0 <= lo <= next <= hi <= u64::MAX,
        forall|k: u64| lo <= k < next ==> !#[trigger] m.contains_key(k),
    ensures
        verdict_from(m, lo, hi, f) == verdict_from(m, next, hi, f),
    decreases next - lo,
{
    if lo < next {
        assert(!m.contains_key(lo as u64));
        lemma_verdict_skip(m, lo + 1, next, hi, f);
    }
}

/// Records outside of the range do not bear on the verdict.
pub proof fn lemma_verdict_agrees(
    a: Map<u64, (u64, WritesModel)>,
    b: Map<u64, (u64, WritesModel)>,
    lo: int,
    hi: int,
    f: Footprint,
)
    requires
        0 <= lo,
        hi <= u64::MAX + 1,
        forall|k: u64|
            lo <= k < hi ==> #[trigger] a.contains_key(k) == b.contains_key(k) && (a.contains_key(k)
                ==> a[k] == b[k]),
    ensures
        verdict_from(a, lo, hi, f) == verdict_from(b, lo, hi, f),
    decreases hi - lo,
{
    if lo < hi {
        assert(a.contains_key(lo as u64) == b.contains_key(lo as u64));
        lemma_verdict_agrees(a, b, lo + 1, hi, f);
    }
}

impl TransactionInner {
    /// The filter over the keys that were read holds exactly them: it finds each of them, and it
    /// counts them.
    pub closed spec fn wf(&self) -> bool {
        &&& self.writeset.consistent()
        &&& keyset_view(self.readset).finite()
        &&& self.readset_bloom.inserted() == keyset_view(self.readset).len()
        &&& forall|k: Seq<u8>| #[trigger]
            keyset_view(self.readset).contains(k) ==> self.readset_bloom.may_hold(k)
    }

    /// The writes in the order of their keys.
    pub closed spec fn write_list(&self) -> EntriesModel {
        self.writeset.list()
    }

    /// What the list of writes says of the writes: its keys ascend, and it describes them.
    pub proof fn lemma_write_list(&self)
        requires
            self.wf(),
        ensures
            entries_sorted(self.write_list()),
            self@.writes == map_of(self.write_list()),
    {
    }

    /// A transaction that begins now.
    pub fn new(db: &mut Inner, write: bool) -> (r: Self)
        requires
            old(db).wf(),
            old(db)@.can_begin(),
        ensures
            r.wf(),
            r@ == TxState::opened(old(db)@, write),
            final(db)@ == old(db)@.begun(),
            final(db).wf(),
            final(db)@.registered(r@),
            final(db).same_setup(*old(db)),
    {
        let (commit, version) = db.register();
        TransactionInner {
            mode: IsolationLevel::SnapshotIsolation,
            done: false,
            write,
            commit,
            version,
            readset: keyset_new(),
            readset_bloom: BloomFilter::new(),
            writeset: WriteSet::new(),
        }
    }

    /// Makes a finished transaction into one that begins now. The memory for its writes is kept
    /// unless it held more of them than the threshold says.
    pub fn reset(&mut self, db: &mut Inner, write: bool)
        requires
            old(db).wf(),
            old(db)@.can_begin(),
        ensures
            final(self).wf(),
            final(self)@ == TxState::opened(old(db)@, write),
            final(db)@ == old(db)@.begun(),
            final(db).wf(),
            final(db)@.registered(final(self)@),
            final(db).same_setup(*old(db)),
    {
        let (commit, version) = db.register();
        self.mode = IsolationLevel::SnapshotIsolation;
        self.done = false;
        self.write = write;
        self.commit = commit;
        self.version = version;
        if self.writeset.len() > db.reset_threshold() {
            self.writeset = WriteSet::new();
        } else {
            self.writeset.clear();
        }
        self.clear_reads();
    }

    /// Checks writes alone at commit.
    pub fn set_snapshot_isolation(&mut self)
        requires
            old(self).wf(),
        ensures
            final(self).wf(),
            final(self)@ == (TxState { ssi: false, ..old(self)@ }),
            final(self).write_list() == old(self).write_list(),
    {
        self.mode = IsolationLevel::SnapshotIsolation;
    }

    /// Checks reads at commit, too: those from now on.
    pub fn set_serializable_snapshot_isolation(&mut self)
        requires
            old(self).wf(),
        ensures
            final(self).wf(),
            final(self)@ == (TxState { ssi: true, ..old(self)@ }),
            final(self).write_list() == old(self).write_list(),
    {
        self.mode = IsolationLevel::SerializableSnapshotIsolation;
    }

    /// The version at which the transaction reads.
    pub fn version(&self) -> (r: u64)
        ensures
            r == self@.version,
    {
        self.version
    }

    /// The commit number at which the transaction began.
    pub fn commit_point(&self) -> (r: u64)
        ensures
            r == self@.commit,
    {
        self.commit
    }

    /// Whether the transaction was committed or cancelled.
    pub fn closed(&self) -> (r: bool)
        ensures
            r == self@.done,
    {
        self.done
    }

    /// Forgets every read.
    fn clear_reads(&mut self)
        requires
            old(self).writeset.consistent(),
        ensures
            final(self).wf(),
            final(self)@ == (TxState { reads: Set::empty(), ..old(self)@ }),
            final(self).write_list() == old(self).write_list(),
    {
        keyset_clear(&mut self.readset);
        self.readset_bloom.clear();
    }

    /// Empties what a closed transaction has no use for.
    fn finish_closed(&mut self)
        requires
            old(self).wf(),
            old(self)@.done,
        ensures
            final(self).wf(),
            final(self)@ == old(self)@.closed(),
    {
        if self.mode == IsolationLevel::SerializableSnapshotIsolation {
            self.clear_reads();
        }
        self.writeset.clear();
    }

    /// Closes the transaction without a trace.
    pub fn cancel(&mut self) -> (r: Result<(), Error>)
        requires
            old(self).wf(),
        ensures
            final(self).wf(),
            old(self)@.done ==> r == Err::<(), Error>(Error::TxClosed) && final(self)@ == old(
                self,
            )@,
            !old(self)@.done ==> r is Ok && final(self)@ == old(self)@.closed(),
    {
        if self.done {
            return Err(Error::TxClosed);
        }
        self.done = true;
        self.finish_closed();
        Ok(())
    }

    /// Commits as far as the store, where the clock reads `now`: the commit gets a number and is
    /// checked against those since the transaction began; if it passes, its writes get a version
    /// and reach the store. What is returned then is for the log; `commit_finish` ends the
    /// commit.
    pub fn commit_start(&mut self, db: &mut Inner, now: u64) -> (r: Result<
        Option<PendingCommit>,
        Error,
    >)
        requires
            old(self).wf(),
            old(db).wf(),
            old(db)@.can_commit(),
            old(db)@.registered(old(self)@),
        ensures
            final(self).wf(),
            final(db).wf(),
            final(db)@ == old(db)@.commit_started(
                old(self)@,
                keys_of(old(self).write_list()),
                now,
            ),
            final(db).same_setup(*old(db)),
            match old(db)@.outcome(old(self)@) {
                Outcome::Closed => r == Err::<Option<PendingCommit>, Error>(Error::TxClosed)
                    && final(self)@ == old(self)@,
                Outcome::Empty => r matches Ok(None) && final(self)@ == old(self)@.after_commit(
                    Outcome::Empty,
                ),
                Outcome::WriteConflict => r == Err::<Option<PendingCommit>, Error>(
                    Error::KeyWriteConflict,
                ) && final(self)@ == old(self)@.closed(),
                Outcome::ReadConflict => r == Err::<Option<PendingCommit>, Error>(
                    Error::KeyReadConflict,
                ) && final(self)@ == old(self)@.closed(),
                Outcome::Applied => {
                    &&& r matches Ok(Some(p))
                    &&& p.is_commit_of(old(db)@, old(self)@.writes, old(self).write_list(), now)
                    &&& final(self)@ == (TxState {
                        done: true,
                        writes: Map::empty(),
                        ..old(self)@
                    })
                },
            },
    {
        let ghost tx = self@;
        let ghost s = db@;
        if self.done {
            return Err(Error::TxClosed);
        }
        self.done = true;
        if self.writeset.is_empty() {
            return Ok(None);
        }
        let mut taken = WriteSet::new();
        std::mem::swap(&mut taken, &mut self.writeset);
        let writeset = Arc::new(taken);
        let id: u64 = db.take_queue_id();
        let updates = Commit::new(id, crate::inner::arc_clone(&writeset));
        let (number, entry) = self.auto_commit(db, updates);
        let verdict = self.check_conflicts(db, number, &entry);
        proof {
            assert(self@.footprint().ssi == tx.ssi);
            lemma_verdict_agrees(
                db@.commits,
                s.commits,
                tx.commit + 1,
                s.commit_id + 1,
                tx.footprint(),
            );
        }
        match verdict {
            Verdict::WriteConflict => {
                db.dequeue_commit(number);
                self.finish_closed();
                assert(db@ =~= s.refused());
                assert(self@ =~= tx.closed());
                return Err(Error::KeyWriteConflict);
            },
            Verdict::ReadConflict => {
                db.dequeue_commit(number);
                self.finish_closed();
                assert(db@ =~= s.refused());
                assert(self@ =~= tx.closed());
                return Err(Error::KeyReadConflict);
            },
            Verdict::Clear => {},
        }
        let merge_id: u64 = db.take_merge_id();
        let (version, merge) = self.atomic_merge(
            db,
            Merge { id: merge_id, writeset: crate::inner::arc_clone(&writeset) },
            now,
        );
        let former = db.chains_of(&writeset);
        db.write_all(version, &merge.writeset);
        assert(db@ =~= s.applied(tx.writes, keys_of(old(self).write_list()), now));
        Ok(Some(PendingCommit { version, writeset, number, former }))
    }

    /// Ends a commit whose writes have reached the store: its record leaves the merge queue. Where
    /// the log could not be written the commit fails and is taken back: its keys have the chains
    /// again that they had before, and its record leaves the commit queue, too.
    pub fn commit_finish(
        &mut self,
        db: &mut Inner,
        pending: PendingCommit,
        logged: Result<(), PersistenceError>,
    ) -> (r: Result<(), Error>)
        requires
            old(self).wf(),
            old(self)@.done,
            old(db).wf(),
            pending.wf(),
        ensures
            final(self).wf(),
            final(self)@ == old(self)@.closed(),
            final(db).wf(),
            final(db)@ == pending.ended(old(db)@, logged is Ok),
            final(db).same_setup(*old(db)),
            match logged {
                Ok(_) => r is Ok,
                Err(e) => r == Err::<(), Error>(Error::TxCommitNotPersisted(e)),
            },
    {
        db.remove_merge(pending.version);
        self.finish_closed();
        match logged {
            Ok(_) => Ok(()),
            Err(e) => {
                db.put_back(pending.number, &pending.writeset, &pending.former);
                db.dequeue_commit(pending.number);
                Err(Error::TxCommitNotPersisted(e))
            },
        }
    }

    /// Commits where there is no log to wait for and the clock reads `now`.
    pub fn commit_at(&mut self, db: &mut Inner, now: u64) -> (r: Result<(), Error>)
        requires
            old(self).wf(),
            old(db).wf(),
            old(db)@.can_commit(),
            old(db)@.registered(old(self)@),
        ensures
            final(self).wf(),
            final(db).wf(),
            final(db)@ == old(db)@.committed(old(self)@, keys_of(old(self).write_list()), now),
            final(db).same_setup(*old(db)),
            final(self)@ == old(self)@.after_commit(old(db)@.outcome(old(self)@)),
            match old(db)@.outcome(old(self)@) {
                Outcome::Closed => r == Err::<(), Error>(Error::TxClosed),
                Outcome::Empty => r is Ok,
                Outcome::WriteConflict => r == Err::<(), Error>(Error::KeyWriteConflict),
                Outcome::ReadConflict => r == Err::<(), Error>(Error::KeyReadConflict),
                Outcome::Applied => r is Ok,
            },
    {
        let ghost tx = self@;
        match self.commit_start(db, now) {
            Ok(Some(pending)) => {
                let r = self.commit_finish(db, pending, Ok(()));
                assert(self@ =~= tx.closed());
                r
            },
            Ok(None) => Ok(()),
            Err(e) => Err(e),
        }
    }

    /// Puts the record of a commit into the commit queue, under the next commit number.
    pub fn auto_commit(&self, db: &mut Inner, updates: Commit) -> (r: (u64, Arc<Commit>))
        requires
            old(db).wf(),
            old(db)@.commit_id < u64::MAX - 1,
        ensures
            r.0 == old(db)@.commit_id + 1,
            *r.1 == updates,
            final(db)@ == (EngineState {
                commit_id: r.0,
                commits: old(db)@.commits.insert(r.0, (updates.number(), updates.writes())),
                ..old(db)@
            }),
            final(db).wf(),
            final(db).same_setup(*old(db)),
    {
        db.enqueue_commit(updates)
    }

    /// Puts the record of a commit into the merge queue, at the next version.
    fn atomic_merge(&self, db: &mut Inner, updates: Merge, now: u64) -> (r: (u64, Arc<Merge>))
        requires
            old(db).wf(),
            old(db)@.timestamp < u64::MAX,
        ensures
            r.0 == old(db)@.next_version(now),
            *r.1 == updates,
            final(db)@ == (EngineState {
                timestamp: r.0,
                merges: old(db)@.merges.insert(r.0, (updates.id, updates.writeset@)),
                ..old(db)@
            }),
            final(db).wf(),
            final(db).same_setup(*old(db)),
    {
        db.enqueue_merge(updates, now)
    }

    /// Checks a commit against the records between the one at which the transaction began and
    /// its own.
    fn check_conflicts(&self, db: &Inner, number: u64, entry: &Arc<Commit>) -> (r: Verdict)
        requires
            self.wf(),
            self@.commit < number,
        ensures
            r == verdict_from(
                db@.commits,
                self@.commit + 1,
                number as int,
                (Footprint { ssi: self@.ssi, reads: self@.reads, writes: entry.writes() }),
            ),
    {
        let ghost m = db@.commits;
        let ghost f = Footprint { ssi: self@.ssi, reads: self@.reads, writes: entry.writes() };
        let ghost lo = self.commit + 1;
        let serializable = self.mode == IsolationLevel::SerializableSnapshotIsolation;
        let list = db.commits_between(self.commit + 1, number);
        let ghost mut at: int = lo;
        let mut i: usize = 0;
        while i < list.len()
            invariant
                i <= list@.len(),
                m == db@.commits,
                lo == self.commit + 1,
                lo <= at <= number,
                lists_commits(list@, m, lo as u64, number),
                self.wf(),
                serializable == f.ssi,
                f == (Footprint {
                    ssi: self@.ssi,
                    reads: self@.reads,
                    writes: entry.writes(),
                }),
                at == (if i == 0 {
                    lo
                } else {
                    list@[i - 1].0 + 1
                }),
                verdict_from(m, lo, number as int, f) == verdict_from(m, at, number as int, f),
            decreases list@.len() - i,
        {
            let record = &list[i].1;
            let ghost k = list@[i as int].0;
            proof {
                assert forall|x: u64| at <= x < k implies !#[trigger] m.contains_key(x) by {
                    if m.contains_key(x) {
                        let j = choose|j: int| 0 <= j < list@.len() && (#[trigger] list@[j]).0 == x;
                        assert(list@[j].0 == x);
                        if j > i {
                            assert(list@[i as int].0 < list@[j].0);
                        }
                    }
                }
                lemma_verdict_skip(m, at, k as int, number as int, f);
                assert(m[k] == (record.number(), record.writes()));
            }
            if !record.is_disjoint_writeset_bloom(entry) {
                return Verdict::WriteConflict;
            }
            if serializable {
                proof {
                    if self.readset_bloom.inserted() == 0 {
                        assert(keyset_view(self.readset) =~= Set::empty());
                    }
                }
                if !record.is_disjoint_readset_bloom(&self.readset, &self.readset_bloom) {
                    return Verdict::ReadConflict;
                }
            }
            proof {
                at = k + 1;
            }
            i += 1;
        }
        proof {
            assert forall|x: u64| at <= x < number implies !#[trigger] m.contains_key(x) by {
                if m.contains_key(x) {
                    let j = choose|j: int| 0 <= j < list@.len() && (#[trigger] list@[j]).0 == x;
                    assert(list@[j].0 == x);
                }
            }
            lemma_verdict_skip(m, at, number as int, number as int, f);
        }
        Verdict::Clear
    }

    /// Notes that a key was read.
    fn note_read(&mut self, key: &[u8])
        requires
            old(self).wf(),
        ensures
            final(self).wf(),
            final(self)@ == (TxState { reads: old(self)@.reads.insert(key@), ..old(self)@ }),
            final(self).write_list() == old(self).write_list(),
    {
        if !keyset_contains(&self.readset, key) {
            let ghost before = self.readset_bloom;
            let ghost reads = keyset_view(self.readset);
            keyset_insert(&mut self.readset, bytes_from_slice(key));
            assert(keyset_view(self.readset).len() == reads.len() + 1);
            self.readset_bloom.insert(key);
            assert forall|k: Seq<u8>| #[trigger]
                keyset_view(self.readset).contains(k) implies self.readset_bloom.may_hold(k) by {
                law_no_false_negative(before, self.readset_bloom, key@, k);
            }
        } else {
            assert(self@.reads.insert(key@) =~= self@.reads);
        }
    }

    /// Whether a key has a value, as far as the transaction sees.
    pub fn contains<K: IntoBytes>(&mut self, db: &Inner, key: K) -> (r: Result<bool, Error>)
        requires
            old(self).wf(),
            db.wf(),
        ensures
            final(self).wf(),
            final(self).write_list() == old(self).write_list(),
            old(self)@.done ==> r == Err::<bool, Error>(Error::TxClosed) && final(self)@ == old(
                self,
            )@,
            !old(self)@.done ==> r == Ok::<bool, Error>(
                db@.read(old(self)@, key.content()) is Some,
            ) && final(self)@ == old(self)@.noted(key.content()),
            !old(self)@.done && old(self)@.write && old(self)@.ssi
                && !old(self)@.writes.contains_key(key.content()) ==> final(self)@.reads == old(
                self,
            )@.reads.insert(key.content()),
    {
        let lookup = key.as_slice();
        if self.done {
            return Err(Error::TxClosed);
        }
        if self.write {
            if let Some(v) = self.writeset.get(lookup) {
                return Ok(v.is_some());
            }
            let res = db.exists_in_datastore(lookup, self.version);
            if self.mode == IsolationLevel::SerializableSnapshotIsolation {
                self.note_read(lookup);
            }
            return Ok(res);
        }
        Ok(db.exists_in_datastore(lookup, self.version))
    }

    /// The value of a key, as far as the transaction sees.
    pub fn get<K: IntoBytes>(&mut self, db: &Inner, key: K) -> (r: Result<Option<Bytes>, Error>)
        requires
            old(self).wf(),
            db.wf(),
        ensures
            final(self).wf(),
            final(self).write_list() == old(self).write_list(),
            old(self)@.done ==> r == Err::<Option<Bytes>, Error>(Error::TxClosed) && final(self)@
                == old(self)@,
            !old(self)@.done ==> {
                &&& r matches Ok(v)
                &&& value_view(v) == db@.read(old(self)@, key.content())
                &&& final(self)@ == old(self)@.noted(key.content())
            },
            !old(self)@.done && old(self)@.write && old(self)@.ssi
                && !old(self)@.writes.contains_key(key.content()) ==> final(self)@.reads == old(
                self,
            )@.reads.insert(key.content()),
    {
        let lookup = key.as_slice();
        if self.done {
            return Err(Error::TxClosed);
        }
        if self.write {
            if let Some(v) = self.writeset.get(lookup) {
                return Ok(value_clone(v));
            }
            let res = db.fetch_in_datastore(lookup, self.version);
            if self.mode == IsolationLevel::SerializableSnapshotIsolation {
                self.note_read(lookup);
            }
            return Ok(res);
        }
        Ok(db.fetch_in_datastore(lookup, self.version))
    }

    /// Writes a value to a key.
    pub fn set<K: IntoBytes, V: IntoBytes>(&mut self, key: K, val: V) -> (r: Result<(), Error>)
        requires
            old(self).wf(),
        ensures
            final(self).wf(),
            write_result(old(self)@, final(self)@, r, key.content(), Some(val.content())),
    {
        if self.done {
            return Err(Error::TxClosed);
        }
        if !self.write {
            return Err(Error::TxNotWritable);
        }
        self.writeset.insert(key.into_bytes(), Some(val.into_bytes()));
        Ok(())
    }

    /// Writes a value to a key that has none, as far as the transaction sees.
    pub fn put<K: IntoBytes, V: IntoBytes>(&mut self, db: &Inner, key: K, val: V) -> (r: Result<
        (),
        Error,
    >)
        requires
            old(self).wf(),
            db.wf(),
        ensures
            final(self).wf(),
            old(self)@.done || !old(self)@.write || db@.read(old(self)@, key.content()) is None
                ==> write_result(old(self)@, final(self)@, r, key.content(), Some(val.content())),
            !old(self)@.done && old(self)@.write && db@.read(old(self)@, key.content()) is Some
                ==> r == Err::<(), Error>(Error::KeyAlreadyExists) && final(self)@ == old(self)@,
    {
        if self.done {
            return Err(Error::TxClosed);
        }
        if !self.write {
            return Err(Error::TxNotWritable);
        }
        let lookup = key.as_slice();
        let present = match self.writeset.get(lookup) {
            Some(v) => v.is_some(),
            None => db.exists_in_datastore(lookup, self.version),
        };
        if present {
            return Err(Error::KeyAlreadyExists);
        }
        self.writeset.insert(key.into_bytes(), Some(val.into_bytes()));
        Ok(())
    }

    /// Deletes a key, whether it has a value or not.
    pub fn del<K: IntoBytes>(&mut self, key: K) -> (r: Result<(), Error>)
        requires
            old(self).wf(),
        ensures
            final(self).wf(),
            write_result(old(self)@, final(self)@, r, key.content(), None),
    {
        if self.done {
            return Err(Error::TxClosed);
        }
        if !self.write {
            return Err(Error::TxNotWritable);
        }
        self.writeset.insert(key.into_bytes(), None);
        Ok(())
    }
}

/// What a write to a key comes to: a closed transaction and one that may only read refuse it.
pub open spec fn write_result(
    before: TxState,
    after: TxState,
    r: Result<(), Error>,
    key: Seq<u8>,
    value: Option<Seq<u8>>,
) -> bool {
    if before.done {
        r == Err::<(), Error>(Error::TxClosed) && after == before
    } else if !before.write {
        r == Err::<(), Error>(Error::TxNotWritable) && after == before
    } else {
        r is Ok && after == before.wrote(key, value)
    }
}

/// A commit that waits for the log holds what it takes to end it either way. Ended well, it leaves
/// the store with all of its writes, and no record in the merge queue. Ended badly, it leaves the
/// store and both queues as they were before it.
pub proof fn law_waiting_commit_can_end_either_way(
    pending: PendingCommit,
    s: EngineState,
    tx: TxState,
    list: EntriesModel,
    now: u64,
)
    requires
        s.wf(),
        s.can_commit(),
        s.outcome(tx) == Outcome::Applied,
        pending.is_commit_of(s, tx.writes, list, now),
    ensures
        ({
            let waiting = s.commit_started(tx, keys_of(list), now);
            let well = pending.ended(waiting, true);
            let badly = pending.ended(waiting, false);
            &&& pending.version == waiting.timestamp
            &&& pending.number == waiting.commit_id
            &&& pending.writeset@ == tx.writes
            &&& pending.writeset.list() == list
            &&& well.store == waiting.store
            &&& well.commits == waiting.commits
            &&& well.merges == s.merges
            &&& badly.store == s.store
            &&& badly.commits == s.commits
            &&& badly.merges == s.merges
            &&& well.timestamp == waiting.timestamp && badly.timestamp == waiting.timestamp
            &&& well.commit_id == waiting.commit_id && badly.commit_id == waiting.commit_id
            &&& well.by_oracle == s.by_oracle && badly.by_oracle == s.by_oracle
            &&& well.by_commit == s.by_commit && badly.by_commit == s.by_commit
        }),
{
    let waiting = s.commit_started(tx, keys_of(list), now);
    crate::laws::law_unlogged_commit_is_taken_back(s, tx.writes, keys_of(list), now, waiting);
    assert(!s.merges.contains_key(s.next_version(now)));
    assert(waiting.merges.remove(pending.version) =~= s.merges);
}

} // verus!
