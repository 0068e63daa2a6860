//! The database and its transactions: they begin in it, read, write and commit, and go back to
//! it; it collects what nobody needs any more.

use bytes::Bytes;
use std::sync::Arc;
use std::time::Duration;
use vstd::prelude::*;

use crate::compression::CompressionMode;
use crate::error::{Error, PersistenceError};
use crate::inner::{keys_of, Inner};
use crate::kv::{value_view, IntoBytes};
use crate::model::{EngineState, Outcome, TxState};
use crate::options::{AolMode, DatabaseOptions, PersistenceOptions};
use crate::persistence::{log_in_use, placed, AppendPlan, Persistence, PersistenceSettings};
use crate::pool::Pool;
use crate::replay::{
    file_view, holds_log, holds_snapshot, load_all, log_image, records_of, replay_all, restore,
    ListingModel, RecordsModel,
};
use crate::time::{duration_nanos, monotonic_read};
use crate::tx::{write_result, PendingCommit, TransactionInner};
use crate::writeset::{entries_sorted, map_of, EntriesModel, WriteSet};

verus! {

/// A database.
pub struct Database {
    inner: Inner,
    pool: Pool,
    cleanup_interval: Duration,
    gc_interval: Duration,
    gc_full_scan_frequency: u64,
    persistence: Option<Persistence>,
}

impl View for Database {
    type V = EngineState;

    closed spec fn view(&self) -> EngineState {
        self.inner@
    }
}

/// A transaction. It belongs to the database that it was begun in, and goes back to it with
/// `Database::release`.
pub struct Transaction {
    inner: TransactionInner,
}

/// How far a commit has come.
pub enum CommitStep {
    /// It is done.
    Done,
    /// These bytes have to go to the log, and then `Transaction::commit_finish` ends it.
    Log(PendingCommit, Vec<u8>),
}

impl View for Transaction {
    type V = TxState;

    closed spec fn view(&self) -> TxState {
        self.inner@
    }
}

/// The outcome of a commit as its result.
pub open spec fn commit_result(outcome: Outcome, r: Result<(), Error>) -> bool {
    match outcome {
        Outcome::Closed => r == Err::<(), Error>(Error::TxClosed),
        Outcome::Empty => r is Ok,
        Outcome::WriteConflict => r == Err::<(), Error>(Error::KeyWriteConflict),
        Outcome::ReadConflict => r == Err::<(), Error>(Error::KeyReadConflict),
        Outcome::Applied => r is Ok,
    }
}

impl Transaction {
    /// What every operation keeps.
    pub closed spec fn wf(&self) -> bool {
        self.inner.wf()
    }

    /// What goes back to the pool.
    pub closed spec fn body(&self) -> TransactionInner {
        self.inner
    }

    /// The writes in the order of their keys.
    pub closed spec fn write_list(&self) -> EntriesModel {
        self.inner.write_list()
    }

    /// What the list of writes says of the writes: its keys ascend, and it describes them.
    pub proof fn lemma_write_list(&self)
        requires
            self.wf(),
        ensures
            entries_sorted(self.write_list()),
            self@.writes == map_of(self.write_list()),
    {
        self.inner.lemma_write_list();
    }

    /// Checks writes alone at commit.
    pub fn with_snapshot_isolation(self) -> (r: Self)
        requires
            self.wf(),
        ensures
            r.wf(),
            r@ == (TxState { ssi: false, ..self@ }),
            r.write_list() == self.write_list(),
    {
        let mut r = self;
        r.inner.set_snapshot_isolation();
        r
    }

    /// Checks reads at commit, too: those from now on.
    pub fn with_serializable_snapshot_isolation(self) -> (r: Self)
        requires
            self.wf(),
        ensures
            r.wf(),
            r@ == (TxState { ssi: true, ..self@ }),
            r.write_list() == self.write_list(),
    {
        let mut r = self;
        r.inner.set_serializable_snapshot_isolation();
        r
    }

    /// The version at which the transaction reads.
    pub fn version(&self) -> (r: u64)
        ensures
            r == self@.version,
    {
        self.inner.version()
    }

    /// The commit number at which the transaction began.
    pub fn commit_point(&self) -> (r: u64)
        ensures
            r == self@.commit,
    {
        self.inner.commit_point()
    }

    /// Whether the transaction was committed or cancelled.
    pub fn closed(&self) -> (r: bool)
        ensures
            r == self@.done,
    {
        self.inner.closed()
    }

    /// Closes the transaction without a trace.
    pub fn cancel(&mut self) -> (r: Result<(), Error>)
        requires
            old(self).wf(),
        ensures
            final(self).wf(),
            old(self)@.done ==> r == Err::<(), Error>(Error::TxClosed) && final(self)@ == old(self)@,
            !old(self)@.done ==> r is Ok && final(self)@ == old(self)@.closed(),
    {
        self.inner.cancel()
    }

    /// Commits where the clock reads `now`, up to the point where the log has to be written: what
    /// is returned says whether that is so. A log that is written later gets the writes here. A
    /// commit that cannot be written as bytes fails and is taken back.
    pub fn commit_start_at(&mut self, db: &mut Database, now: u64) -> (r: Result<CommitStep, Error>)
        requires
            old(self).wf(),
            old(db).wf(),
            old(db)@.can_commit(),
            old(db)@.registered(old(self)@),
        ensures
            final(self).wf(),
            final(db).wf(),
            final(db).same_setup(*old(db)),
            final(db)@ == old(db).commit_started_at(old(self)@, old(self).write_list(), now),
            final(self)@ == (if r matches Ok(CommitStep::Log(..)) {
                TxState { done: true, writes: Map::empty(), ..old(self)@ }
            } else {
                old(self)@.after_commit(old(db)@.outcome(old(self)@))
            }),
            match old(db)@.outcome(old(self)@) {
                Outcome::Closed => r == Err::<CommitStep, Error>(Error::TxClosed),
                Outcome::Empty => r matches Ok(CommitStep::Done),
                Outcome::WriteConflict => r == Err::<CommitStep, Error>(Error::KeyWriteConflict),
                Outcome::ReadConflict => r == Err::<CommitStep, Error>(Error::KeyReadConflict),
                Outcome::Applied => if old(db).log_mode() == AolMode::SynchronousOnCommit {
                    match log_image(
                        records_of(old(db)@.next_version(now), old(self).write_list()),
                    ) {
                        Some(b) => {
                            &&& r matches Ok(CommitStep::Log(pending, bytes))
                            &&& pending.is_commit_of(
                                old(db)@,
                                old(self)@.writes,
                                old(self).write_list(),
                                now,
                            )
                            &&& bytes@ == b
                        },
                        None => r matches Err(Error::TxCommitNotPersisted(
                            PersistenceError::Serialization(_),
                        )),
                    }
                } else {
                    r matches Ok(CommitStep::Done)
                },
            },
            final(db).log_queue() == old(db).log_queue_after(
                old(self)@,
                old(self).write_list(),
                now,
            ),
            final(db).log_queue() == (if old(db)@.outcome(old(self)@) == Outcome::Applied && old(
                db,
            ).log_mode() == AolMode::AsynchronousAfterCommit {
                old(db).log_queue().push((old(db)@.next_version(now), old(self).write_list()))
            } else {
                old(db).log_queue()
            }),
    {
        let ghost tx = self@;
        let ghost s = db@;
        let ghost keys = keys_of(self.write_list());
        let pending = match self.inner.commit_start(&mut db.inner, now) {
            Ok(Some(p)) => p,
            Ok(None) => {
                return Ok(CommitStep::Done);
            },
            Err(e) => {
                return Err(e);
            },
        };
        let plan = match db.append(pending.version, &pending.writeset) {
            Ok(plan) => plan,
            Err(e) => {
                let r = self.inner.commit_finish(&mut db.inner, pending, Err(e));
                proof {
                    crate::laws::law_unlogged_commit_is_taken_back(s, tx.writes, keys, now, s);
                }
                assert(self@ =~= tx.closed());
                return match r {
                    Ok(_) => Ok(CommitStep::Done),
                    Err(e) => Err(e),
                };
            },
        };
        match plan {
            AppendPlan::Write(bytes) => Ok(CommitStep::Log(pending, bytes)),
            _ => {
                let r = self.inner.commit_finish(&mut db.inner, pending, Ok(()));
                assert(self@ =~= tx.closed());
                match r {
                    Ok(_) => Ok(CommitStep::Done),
                    Err(e) => Err(e),
                }
            },
        }
    }

    /// Ends a commit whose writes had to go to the log. Where the log could not be written it
    /// fails and is taken back: its keys have the chains again that they had before.
    pub fn commit_finish(
        &mut self,
        db: &mut Database,
        pending: PendingCommit,
        logged: Result<(), PersistenceError>,
    ) -> (r: Result<(), Error>)
        requires
            old(self).wf(),
            old(self)@.done,
            old(db).wf(),
            pending.wf(),
        ensures
            final(self).wf(),
            final(self)@ == old(self)@.closed(),
            final(db).wf(),
            final(db).same_setup(*old(db)),
            final(db).log_queue() == old(db).log_queue(),
            final(db)@ == pending.ended(old(db)@, logged is Ok),
            match logged {
                Ok(_) => r is Ok,
                Err(e) => r == Err::<(), Error>(Error::TxCommitNotPersisted(e)),
            },
    {
        self.inner.commit_finish(&mut db.inner, pending, logged)
    }

    /// Commits where the clock reads `now` and no commit waits for the log.
    pub fn commit_at(&mut self, db: &mut Database, now: u64) -> (r: Result<(), Error>)
        requires
            old(self).wf(),
            old(db).wf(),
            old(db)@.can_commit(),
            old(db)@.registered(old(self)@),
            old(db).log_mode() != AolMode::SynchronousOnCommit,
        ensures
            final(self).wf(),
            final(db).wf(),
            final(db).same_setup(*old(db)),
            final(db)@ == old(db)@.committed(old(self)@, keys_of(old(self).write_list()), now),
            final(self)@ == old(self)@.after_commit(old(db)@.outcome(old(self)@)),
            commit_result(old(db)@.outcome(old(self)@), r),
            final(db).log_queue() == old(db).log_queue_after(
                old(self)@,
                old(self).write_list(),
                now,
            ),
            final(db).log_queue() == (if old(db)@.outcome(old(self)@) == Outcome::Applied && old(
                db,
            ).log_mode() == AolMode::AsynchronousAfterCommit {
                old(db).log_queue().push((old(db)@.next_version(now), old(self).write_list()))
            } else {
                old(db).log_queue()
            }),
    {
        match self.commit_start_at(db, now) {
            Ok(_) => Ok(()),
            Err(e) => Err(e),
        }
    }

    /// Commits now, where no commit waits for the log.
    pub fn commit(&mut self, db: &mut Database) -> (r: Result<(), Error>)
        requires
            old(self).wf(),
            old(db).wf(),
            old(db)@.can_commit(),
            old(db)@.registered(old(self)@),
            old(db).log_mode() != AolMode::SynchronousOnCommit,
        ensures
            final(self).wf(),
            final(db).wf(),
            final(db).same_setup(*old(db)),
            exists|now: u64|
                old(db).engine().clock().reads(now) && final(db)@ == #[trigger] old(db)@.committed(
                    old(self)@,
                    keys_of(old(self).write_list()),
                    now,
                ) && final(db).log_queue() == old(db).log_queue_after(
                    old(self)@,
                    old(self).write_list(),
                    now,
                ),
            final(self)@ == old(self)@.after_commit(old(db)@.outcome(old(self)@)),
            commit_result(old(db)@.outcome(old(self)@), r),
    {
        let now: u64 = db.current_time_ns();
        self.commit_at(db, now)
    }

    /// Whether a key has a value, as far as the transaction sees.
    pub fn contains<K: IntoBytes>(&mut self, db: &Database, key: K) -> (r: Result<bool, Error>)
        requires
            old(self).wf(),
            db.wf(),
        ensures
            final(self).wf(),
            final(self).write_list() == old(self).write_list(),
            old(self)@.done ==> r == Err::<bool, Error>(Error::TxClosed) && final(self)@ == old(
                self,
            )@,
            !old(self)@.done ==> r == Ok::<bool, Error>(
                db@.read(old(self)@, key.content()) is Some,
            ) && final(self)@ == old(self)@.noted(key.content()),
            !old(self)@.done && old(self)@.write && old(self)@.ssi
                && !old(self)@.writes.contains_key(key.content()) ==> final(self)@.reads == old(
                self,
            )@.reads.insert(key.content()),
    {
        self.inner.contains(&db.inner, key)
    }

    /// The value of a key, as far as the transaction sees.
    pub fn get<K: IntoBytes>(&mut self, db: &Database, key: K) -> (r: Result<Option<Bytes>, Error>)
        requires
            old(self).wf(),
            db.wf(),
        ensures
            final(self).wf(),
            final(self).write_list() == old(self).write_list(),
            old(self)@.done ==> r == Err::<Option<Bytes>, Error>(Error::TxClosed) && final(self)@
                == old(self)@,
            !old(self)@.done ==> {
                &&& r matches Ok(v)
                &&& value_view(v) == db@.read(old(self)@, key.content())
                &&& final(self)@ == old(self)@.noted(key.content())
            },
            !old(self)@.done && old(self)@.write && old(self)@.ssi
                && !old(self)@.writes.contains_key(key.content()) ==> final(self)@.reads == old(
                self,
            )@.reads.insert(key.content()),
    {
        self.inner.get(&db.inner, key)
    }

    /// Writes a value to a key.
    pub fn set<K: IntoBytes, V: IntoBytes>(&mut self, key: K, value: V) -> (r: Result<(), Error>)
        requires
            old(self).wf(),
        ensures
            final(self).wf(),
            write_result(old(self)@, final(self)@, r, key.content(), Some(value.content())),
    {
        self.inner.set(key, value)
    }

    /// Writes a value to a key that has none, as far as the transaction sees.
    pub fn put<K: IntoBytes, V: IntoBytes>(&mut self, db: &Database, key: K, value: V) -> (r: Result<
        (),
        Error,
    >)
        requires
            old(self).wf(),
            db.wf(),
        ensures
            final(self).wf(),
            old(self)@.done || !old(self)@.write || db@.read(old(self)@, key.content()) is None
                ==> write_result(
                old(self)@,
                final(self)@,
                r,
                key.content(),
                Some(value.content()),
            ),
            !old(self)@.done && old(self)@.write && db@.read(old(self)@, key.content()) is Some
                ==> r == Err::<(), Error>(Error::KeyAlreadyExists) && final(self)@ == old(self)@,
    {
        self.inner.put(&db.inner, key, value)
    }

    /// Deletes a key, whether it has a value or not.
    pub fn del<K: IntoBytes>(&mut self, key: K) -> (r: Result<(), Error>)
        requires
            old(self).wf(),
        ensures
            final(self).wf(),
            write_result(old(self)@, final(self)@, r, key.content(), None),
    {
        self.inner.del(key)
    }
}

/// Every how many rounds of collection all keys are looked at: at least every round.
pub open spec fn full_scan_every(frequency: u64) -> u64 {
    if frequency == 0 {
        1
    } else {
        frequency
    }
}

impl Database {
    /// What every operation keeps.
    pub open spec fn wf(&self) -> bool {
        self@.wf()
    }

    /// The transactions that are kept for reuse.
    pub closed spec fn spare(&self) -> Pool {
        self.pool
    }

    /// Persistence, where there is any.
    pub closed spec fn storage(&self) -> Option<Persistence> {
        self.persistence
    }

    /// How often the commit queue is to be cleaned.
    pub closed spec fn cleanup_every(&self) -> Duration {
        self.cleanup_interval
    }

    /// How often old versions are to be collected.
    pub closed spec fn gc_every(&self) -> Duration {
        self.gc_interval
    }

    /// One in this many rounds of collection looks at all keys.
    pub closed spec fn scan_frequency(&self) -> u64 {
        self.gc_full_scan_frequency
    }

    /// The shared state with its settings.
    pub closed spec fn engine(&self) -> Inner {
        self.inner
    }

    /// When the writes of a commit go to the log.
    pub open spec fn log_mode(&self) -> AolMode {
        match self.storage() {
            Some(p) => p.settings().aol_mode,
            None => AolMode::Never,
        }
    }

    /// The commits that wait for the log.
    pub open spec fn log_queue(&self) -> Seq<(u64, EntriesModel)> {
        match self.storage() {
            Some(p) => p.queued(),
            None => Seq::empty(),
        }
    }

    /// The commits that wait for the log after `tx`, which wrote `list`, was committed where the
    /// clock reads `now`.
    pub open spec fn log_queue_after(&self, tx: TxState, list: EntriesModel, now: u64) -> Seq<
        (u64, EntriesModel),
    > {
        if self@.outcome(tx) == Outcome::Applied && self.log_mode()
            == AolMode::AsynchronousAfterCommit {
            self.log_queue().push((self@.next_version(now), list))
        } else {
            self.log_queue()
        }
    }

    /// The engine after `tx`, which wrote `list`, was committed where the clock reads `now`, up to
    /// the point where the log has to be written: a commit that waits for the log still has its
    /// record in the merge queue, and one that cannot be written as bytes was taken back.
    pub open spec fn commit_started_at(&self, tx: TxState, list: EntriesModel, now: u64) -> EngineState {
        if self@.outcome(tx) == Outcome::Applied && self.log_mode()
            == AolMode::SynchronousOnCommit {
            match log_image(records_of(self@.next_version(now), list)) {
                Some(_) => self@.commit_started(tx, keys_of(list), now),
                None => self@.unlogged(keys_of(list), now),
            }
        } else {
            self@.committed(tx, keys_of(list), now)
        }
    }

    /// What is settled is the same in both.
    pub open spec fn same_setup(&self, other: Database) -> bool {
        &&& self.engine().same_setup(other.engine())
        &&& self.cleanup_every() == other.cleanup_every()
        &&& self.gc_every() == other.gc_every()
        &&& self.scan_frequency() == other.scan_frequency()
        &&& self.spare().capacity() == other.spare().capacity()
        &&& self.storage() is Some == other.storage() is Some
        &&& (self.storage() is Some ==> self.storage()->0.same_setup(other.storage()->0)
            && self.storage()->0.pending() == other.storage()->0.pending()
            && self.storage()->0.last_sync() == other.storage()->0.last_sync())
    }

    /// Its clock was just set, and versions start there.
    pub open spec fn starts_now(&self) -> bool {
        &&& self.engine().clock().is_anchored()
        &&& self@.timestamp == self.engine().clock().anchor()
    }

    /// The settings are the default ones, and no transaction is kept for reuse yet.
    pub open spec fn is_default(&self) -> bool {
        &&& self.spare().kept().len() == 0
        &&& self.spare().capacity() == crate::options::DEFAULT_POOL_SIZE
        &&& self.scan_frequency() == crate::options::DEFAULT_GC_FULL_SCAN_FREQUENCY
        &&& self.engine().threshold() == crate::options::DEFAULT_RESET_THRESHOLD
        &&& duration_nanos(self.engine().clock().interval()) == 5_000_000_000
        &&& self.starts_now()
        &&& duration_nanos(self.cleanup_every()) == 1_000_000_000
        &&& duration_nanos(self.gc_every()) == 500_000_000
    }

    /// An empty database in memory, with the default settings.
    pub fn new() -> (r: Self)
        ensures
            r@ == EngineState::fresh(r@.timestamp),
            r.wf(),
            r.storage() is None,
            r.is_default(),
    {
        Self::new_with_options(DatabaseOptions::default())
    }

    /// An empty database in memory.
    pub fn new_with_options(opts: DatabaseOptions) -> (r: Self)
        ensures
            r@ == EngineState::fresh(r@.timestamp),
            r.wf(),
            r.storage() is None,
            r.starts_now(),
            r.engine().threshold() == opts.reset_threshold,
            r.engine().clock().interval() == opts.resync_interval,
            r.cleanup_every() == opts.cleanup_interval,
            r.gc_every() == opts.gc_interval,
            r.scan_frequency() == opts.gc_full_scan_frequency,
            r.spare().kept().len() == 0,
            r.spare().capacity() == opts.pool_size,
    {
        let inner = Inner::new(&opts);
        let pool = Pool::new(opts.pool_size);
        Database {
            inner,
            pool,
            cleanup_interval: opts.cleanup_interval,
            gc_interval: opts.gc_interval,
            gc_full_scan_frequency: opts.gc_full_scan_frequency,
            persistence: None,
        }
    }

    /// A database whose store is read from a snapshot file and a log file, either of which may be
    /// missing or empty; where no log is asked for, a log file has no effect. Collection must not
    /// begin before this is done.
    pub fn new_with_persistence(
        opts: DatabaseOptions,
        persistence_opts: PersistenceOptions,
        snapshot: Option<&[u8]>,
        log: Option<&[u8]>,
    ) -> (r: Result<Self, PersistenceError>)
        ensures
            r is Ok == restore(
                Map::empty(),
                file_view(snapshot),
                log_in_use(persistence_opts.aol_mode, file_view(log)),
            ).ok,
            r matches Err(e) ==> e is Deserialization,
            r matches Ok(db) ==> {
                &&& db@ == (EngineState {
                    store: restore(
                        Map::empty(),
                        file_view(snapshot),
                        log_in_use(persistence_opts.aol_mode, file_view(log)),
                    ).store,
                    ..EngineState::fresh(db@.timestamp)
                })
                &&& db.wf()
                &&& db.storage() matches Some(p)
                &&& p.settings() == (PersistenceSettings {
                    aol_mode: persistence_opts.aol_mode,
                    fsync_mode: persistence_opts.fsync_mode,
                    snapshot_mode: persistence_opts.snapshot_mode,
                    compression_mode: persistence_opts.compression_mode,
                })
                &&& placed(
                    persistence_opts.base_path,
                    persistence_opts.aol_path,
                    "aol.bin"@,
                    p.log_file(),
                )
                &&& placed(
                    persistence_opts.base_path,
                    persistence_opts.snapshot_path,
                    "snapshot.bin"@,
                    p.snapshot_file(),
                )
                &&& p.pending() == 0
                &&& monotonic_read(p.last_sync())
                &&& p.queued().len() == 0
                &&& db.starts_now()
                &&& db.engine().threshold() == opts.reset_threshold
                &&& db.engine().clock().interval() == opts.resync_interval
                &&& db.cleanup_every() == opts.cleanup_interval
                &&& db.gc_every() == opts.gc_interval
                &&& db.scan_frequency() == opts.gc_full_scan_frequency
                &&& db.spare().kept().len() == 0
                &&& db.spare().capacity() == opts.pool_size
            },
            persistence_opts.aol_mode != AolMode::Never ==> forall|
                list: ListingModel,
                mode: CompressionMode,
                records: RecordsModel,
            |
                #[trigger] holds_snapshot(file_view(snapshot), list, mode) && #[trigger] holds_log(
                    file_view(log),
                    records,
                ) ==> r is Ok && r->Ok_0@.store == replay_all(
                    load_all(Map::empty(), list),
                    records,
                ),
            persistence_opts.aol_mode == AolMode::Never ==> forall|
                list: ListingModel,
                mode: CompressionMode,
            | #[trigger]
                holds_snapshot(file_view(snapshot), list, mode) ==> r is Ok && r->Ok_0@.store
                    == load_all(Map::empty(), list),
            forall|list: ListingModel, mode: CompressionMode, records: RecordsModel|
                #[trigger] holds_snapshot(file_view(snapshot), list, mode) && #[trigger] holds_log(
                    log_in_use(persistence_opts.aol_mode, file_view(log)),
                    records,
                ) ==> r is Ok && r->Ok_0@.store == replay_all(
                    load_all(Map::empty(), list),
                    records,
                ),
    {
        let persistence = Persistence::new_with_options(persistence_opts);
        let mut inner = Inner::new(&opts);
        match persistence.load(&mut inner, snapshot, log) {
            Ok(_) => {},
            Err(e) => {
                return Err(e);
            },
        }
        let pool = Pool::new(opts.pool_size);
        Ok(
            Database {
                inner,
                pool,
                cleanup_interval: opts.cleanup_interval,
                gc_interval: opts.gc_interval,
                gc_full_scan_frequency: opts.gc_full_scan_frequency,
                persistence: Some(persistence),
            },
        )
    }

    /// Whether there is room for one more open transaction.
    pub fn can_begin(&self) -> (r: bool)
        ensures
            r == self@.can_begin(),
    {
        self.inner.can_begin()
    }

    /// Whether there are numbers and versions left for one more commit.
    pub fn can_commit(&self) -> (r: bool)
        ensures
            r == self@.can_commit(),
    {
        self.inner.can_commit()
    }

    /// Begins a transaction.
    pub fn transaction(&mut self, write: bool) -> (r: Transaction)
        requires
            old(self).wf(),
            old(self)@.can_begin(),
        ensures
            r.wf(),
            r@ == TxState::opened(old(self)@, write),
            final(self)@ == old(self)@.begun(),
            final(self).wf(),
            final(self)@.registered(r@),
            final(self).same_setup(*old(self)),
            final(self).log_queue() == old(self).log_queue(),
            final(self).spare().kept() == old(self).spare().kept_without(),
    {
        let inner = self.pool.get(&mut self.inner, write);
        Transaction { inner }
    }

    /// Takes a transaction back, whether it was closed or not: it is not counted as open any
    /// more, and is kept for reuse unless there are enough of them.
    pub fn release(&mut self, tx: Transaction)
        requires
            old(self).wf(),
            old(self)@.registered(tx@),
        ensures
            final(self)@ == old(self)@.released(tx@),
            final(self).wf(),
            final(self).same_setup(*old(self)),
            final(self).log_queue() == old(self).log_queue(),
            final(self).spare().kept() == old(self).spare().kept_with(tx.body()),
    {
        self.inner.release(tx.commit_point(), tx.version());
        self.pool.put(tx.inner);
    }

    /// Cleans the commit queue.
    pub fn run_cleanup(&mut self)
        requires
            old(self).wf(),
        ensures
            final(self)@ == old(self)@.cleaned(),
            final(self).wf(),
            final(self).same_setup(*old(self)),
            final(self).log_queue() == old(self).log_queue(),
    {
        self.inner.run_cleanup_inner();
    }

    /// Collects old versions where the clock reads `now`: those of the keys that were written
    /// lately, and then those of all keys.
    pub fn run_gc_at(&mut self, now: u64)
        requires
            old(self).wf(),
        ensures
            final(self)@ == old(self)@.gced(old(self)@.cleanup_ts(now)),
            final(self).wf(),
            final(self)@.dirty.len() == 0,
            forall|k: Seq<u8>, i: int|
                #![trigger final(self)@.store[k][i]]
                final(self)@.store.contains_key(k) && 0 < i < final(self)@.store[k].len()
                    ==> final(self)@.store[k][i].0 > old(self)@.cleanup_ts(now),
            final(self).same_setup(*old(self)),
            final(self).log_queue() == old(self).log_queue(),
    {
        let ghost s = self@;
        let cleanup_ts: u64 = self.inner.compute_cleanup_ts_at(now);
        self.inner.run_gc_dirty_inner(cleanup_ts);
        self.inner.run_gc_full(cleanup_ts);
        proof {
            crate::inner::lemma_gc_after_keys(s.store, s.dirty.to_set(), cleanup_ts);
            crate::effects::law_collection_leaves_what_is_read(s, cleanup_ts);
        }
    }

    /// Collects old versions now.
    pub fn run_gc(&mut self)
        requires
            old(self).wf(),
        ensures
            exists|now: u64|
                old(self).engine().clock().reads(now) && final(self)@ == old(self)@.gced(
                    #[trigger] old(self)@.cleanup_ts(now),
                ),
            final(self).wf(),
            final(self).same_setup(*old(self)),
            final(self).log_queue() == old(self).log_queue(),
    {
        let now: u64 = self.inner.current_time_ns();
        self.run_gc_at(now);
    }

    /// One round of collection in the background, where the clock reads `now`: the keys that were
    /// written lately, and every so many rounds all keys. `cycle` counts the rounds before; the
    /// count with this one is returned.
    pub fn gc_round_at(&mut self, cycle: u64, now: u64) -> (r: u64)
        requires
            old(self).wf(),
        ensures
            r == vstd::wrapping::u64_specs::wrapping_add(cycle, 1),
            final(self)@ == (if r % full_scan_every(old(self).scan_frequency()) == 0 {
                old(self)@.gced(old(self)@.cleanup_ts(now))
            } else {
                old(self)@.floored(old(self)@.cleanup_ts(now)).collected_dirty(
                    old(self)@.cleanup_ts(now),
                )
            }),
            final(self)@.dirty.len() == 0,
            r % full_scan_every(old(self).scan_frequency()) == 0 ==> forall|k: Seq<u8>, i: int|
                #![trigger final(self)@.store[k][i]]
                final(self)@.store.contains_key(k) && 0 < i < final(self)@.store[k].len()
                    ==> final(self)@.store[k][i].0 > old(self)@.cleanup_ts(now),
            final(self).wf(),
            final(self).same_setup(*old(self)),
            final(self).log_queue() == old(self).log_queue(),
    {
        let ghost s = self@;
        let frequency: u64 = if self.gc_full_scan_frequency == 0 {
            1
        } else {
            self.gc_full_scan_frequency
        };
        let cleanup_ts: u64 = self.inner.compute_cleanup_ts_at(now);
        self.inner.run_gc_dirty_inner(cleanup_ts);
        let count: u64 = cycle.wrapping_add(1);
        if count % frequency == 0 {
            self.inner.run_gc_full(cleanup_ts);
            proof {
                crate::inner::lemma_gc_after_keys(s.store, s.dirty.to_set(), cleanup_ts);
                crate::effects::law_collection_leaves_what_is_read(s, cleanup_ts);
            }
        }
        count
    }

    /// The present time, as the database reads it.
    pub fn current_time_ns(&self) -> (r: u64)
        ensures
            self.engine().clock().reads(r),
    {
        self.inner.current_time_ns()
    }

    /// Sets the clock anew.
    pub fn resync(&mut self)
        ensures
            final(self)@ == old(self)@,
            final(self).engine().clock().is_anchored(),
            final(self).engine().clock().interval() == old(self).engine().clock().interval(),
            final(self).engine().threshold() == old(self).engine().threshold(),
            final(self).spare() == old(self).spare(),
            final(self).storage() == old(self).storage(),
            final(self).cleanup_every() == old(self).cleanup_every(),
            final(self).gc_every() == old(self).gc_every(),
            final(self).scan_frequency() == old(self).scan_frequency(),
    {
        self.inner.resync();
    }

    /// How often the clock is to be set anew.
    pub fn resync_interval(&self) -> (r: Duration)
        ensures
            r == self.engine().clock().interval(),
    {
        self.inner.resync_interval()
    }

    /// How often the commit queue is to be cleaned.
    pub fn cleanup_interval(&self) -> (r: Duration)
        ensures
            r == self.cleanup_every(),
    {
        self.cleanup_interval
    }

    /// How often old versions are to be collected.
    pub fn gc_interval(&self) -> (r: Duration)
        ensures
            r == self.gc_every(),
    {
        self.gc_interval
    }

    /// The highest commit number handed out.
    pub fn transaction_commit_id(&self) -> (r: u64)
        ensures
            r == self@.commit_id,
    {
        self.inner.commit_id()
    }

    /// The bytes of a snapshot file, where there is persistence.
    pub fn snapshot(&self) -> (r: Option<Result<Vec<u8>, PersistenceError>>)
        ensures
            r is Some == self.storage() is Some,
            r matches Some(Ok(b)) ==> forall|list: ListingModel| #[trigger]
                crate::replay::is_listing(list, self@.store) ==> snapshot_file_of(
                    list,
                    self.storage()->0.settings().compression_mode,
                ) == Some(b@),
            r matches Some(Err(_)) ==> forall|list: ListingModel| #[trigger]
                crate::replay::is_listing(list, self@.store) ==> snapshot_file_of(
                    list,
                    self.storage()->0.settings().compression_mode,
                ) is None,
            r is Some ==> exists|list: ListingModel| crate::replay::is_listing(list, self@.store),
    {
        match &self.persistence {
            Some(p) => {
                let r = p.snapshot(&self.inner);
                proof {
                    let list = choose|list: ListingModel|
                        crate::replay::is_listing(list, self.inner@.store);
                    assert(crate::replay::is_listing(list, self@.store));
                }
                Some(r)
            },
            None => None,
        }
    }

    /// Persistence, to be written to disk.
    pub fn persistence(&self) -> (r: &Option<Persistence>)
        ensures
            *r == self.storage(),
    {
        &self.persistence
    }

    /// Takes persistence out, so that it can be worked on; `put_persistence` puts it back.
    pub fn take_persistence(&mut self) -> (r: Option<Persistence>)
        ensures
            r == old(self).storage(),
            final(self).storage() is None,
            final(self)@ == old(self)@,
            final(self).spare() == old(self).spare(),
            final(self).engine() == old(self).engine(),
            final(self).cleanup_every() == old(self).cleanup_every(),
            final(self).gc_every() == old(self).gc_every(),
            final(self).scan_frequency() == old(self).scan_frequency(),
    {
        self.persistence.take()
    }

    /// Puts persistence back.
    pub fn put_persistence(&mut self, persistence: Persistence)
        ensures
            final(self).storage() == Some(persistence),
            final(self)@ == old(self)@,
            final(self).spare() == old(self).spare(),
            final(self).engine() == old(self).engine(),
            final(self).cleanup_every() == old(self).cleanup_every(),
            final(self).gc_every() == old(self).gc_every(),
            final(self).scan_frequency() == old(self).scan_frequency(),
    {
        self.persistence = Some(persistence);
    }

    /// What is to be done with the writes of a commit.
    pub(crate) fn append(&mut self, version: u64, writeset: &Arc<WriteSet>) -> (r: Result<
        AppendPlan,
        PersistenceError,
    >)
        ensures
            final(self)@ == old(self)@,
            final(self).same_setup(*old(self)),
            match old(self).log_mode() {
                AolMode::Never => {
                    &&& r matches Ok(AppendPlan::Skip)
                    &&& final(self).log_queue() == old(self).log_queue()
                },
                AolMode::AsynchronousAfterCommit => {
                    &&& r matches Ok(AppendPlan::Queued)
                    &&& final(self).log_queue() == old(self).log_queue().push(
                        (version, writeset.list()),
                    )
                },
                AolMode::SynchronousOnCommit => final(self).log_queue() == old(self).log_queue()
                    && match log_image(records_of(version, writeset.list())) {
                    Some(b) => r matches Ok(AppendPlan::Write(v)) && v@ == b,
                    None => r matches Err(e) && e is Serialization,
                },
            },
    {
        match self.persistence.take() {
            Some(p) => {
                let mut p = p;
                let r = p.append(version, writeset);
                self.persistence = Some(p);
                r
            },
            None => Ok(AppendPlan::Skip),
        }
    }
}

impl Default for Database {
    fn default() -> (r: Self)
        ensures
            r@ == EngineState::fresh(r@.timestamp),
            r.wf(),
            r.storage() is None,
            r.is_default(),
    {
        Database::new()
    }
}

/// The bytes of the snapshot file of a listed store.
pub open spec fn snapshot_file_of(list: ListingModel, mode: CompressionMode) -> Option<Seq<u8>> {
    match crate::replay::snapshot_image(crate::replay::nonempty(list)) {
        Some(plain) => crate::compression::packed(plain, mode),
        None => None,
    }
}

/// A database that starts now has a clock that was just set, and its versions start there.
pub proof fn law_database_starts_now(db: Database)
    requires
        db.starts_now(),
    ensures
        db@.timestamp == db.engine().clock().anchor(),
        crate::oracle::is_wall_time(db.engine().clock().anchor()),
        monotonic_read(db.engine().clock().reference()),
{
}

/// A commit that passes, or has nothing to write, works; every other one says why it does not.
pub proof fn law_commit_says_why(outcome: Outcome, r: Result<(), Error>)
    requires
        commit_result(outcome, r),
    ensures
        r is Ok <==> outcome == Outcome::Applied || outcome == Outcome::Empty,
        outcome == Outcome::Closed ==> r == Err::<(), Error>(Error::TxClosed),
        outcome == Outcome::WriteConflict ==> r == Err::<(), Error>(Error::KeyWriteConflict),
        outcome == Outcome::ReadConflict ==> r == Err::<(), Error>(Error::KeyReadConflict),
{
}

/// All keys are looked at once in as many rounds as is settled, and in every round where that is
/// 0.
pub proof fn law_full_scans_come_as_settled(frequency: u64, rounds: u64)
    ensures
        frequency > 0 ==> (rounds % full_scan_every(frequency) == 0 <==> rounds % frequency == 0),
        frequency == 0 ==> rounds % full_scan_every(frequency) == 0,
{
}

/// Nothing is missing where two databases are set up alike.
pub proof fn law_set_up_alike_is_the_same(a: Database, b: Database)
    requires
        a.same_setup(b),
    ensures
        a.engine().threshold() == b.engine().threshold(),
        a.engine().clock().anchor() == b.engine().clock().anchor(),
        a.engine().clock().reference() == b.engine().clock().reference(),
        a.engine().clock().interval() == b.engine().clock().interval(),
        a.cleanup_every() == b.cleanup_every(),
        a.gc_every() == b.gc_every(),
        a.scan_frequency() == b.scan_frequency(),
        a.spare().capacity() == b.spare().capacity(),
        a.storage() is Some <==> b.storage() is Some,
        a.storage() is Some ==> {
            &&& a.storage()->0.settings() == b.storage()->0.settings()
            &&& a.storage()->0.log_file() == b.storage()->0.log_file()
            &&& a.storage()->0.snapshot_file() == b.storage()->0.snapshot_file()
            &&& a.storage()->0.pending() == b.storage()->0.pending()
            &&& a.storage()->0.last_sync() == b.storage()->0.last_sync()
        },
{
}

/// The file of a snapshot is made of the bytes of all its entries, as they are or as an LZ4 frame,
/// and is missing only where one of the two cannot be made.
pub proof fn law_snapshot_file_is_packed(list: ListingModel, mode: CompressionMode)
    ensures
        match crate::replay::snapshot_image(crate::replay::nonempty(list)) {
            None => snapshot_file_of(list, mode) is None,
            Some(plain) => {
                &&& mode == CompressionMode::Uncompressed ==> snapshot_file_of(list, mode) == Some(
                    plain,
                )
                &&& mode == CompressionMode::Lz4 ==> snapshot_file_of(list, mode)
                    == crate::compression::lz4_frame(plain, 7)
            },
        },
{
}

/// A database with the default settings keeps 512 transactions for reuse, looks at all keys in one
/// round of collection in 20, and starts at the time that its clock was set to.
pub proof fn law_default_database(db: Database)
    requires
        db.is_default(),
    ensures
        db.spare().kept().len() == 0,
        db.spare().capacity() == 512,
        db.scan_frequency() == 20,
        db.engine().threshold() == 100,
        duration_nanos(db.engine().clock().interval()) == 5_000_000_000,
        duration_nanos(db.cleanup_every()) == 1_000_000_000,
        duration_nanos(db.gc_every()) == 500_000_000,
        db@.timestamp == db.engine().clock().anchor(),
        crate::oracle::is_wall_time(db.engine().clock().anchor()),
        monotonic_read(db.engine().clock().reference()),
{
}

} // verus!
