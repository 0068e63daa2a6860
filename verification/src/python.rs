//! The Python interface as far as it is plain values: which exception an error becomes, what
//! leaving a `with` block does, and how objects describe themselves.

use bytes::Bytes;
use vstd::prelude::*;

use crate::db::{CommitStep, Database, Transaction};
use crate::error::{Error, PersistenceError};
use crate::inner::keys_of;
use crate::kv::value_view;
use crate::model::{Outcome, TxState};
use crate::options::{
    path_from_str, path_text, path_to_text, AolMode, DatabaseOptions, FsyncMode,
    PersistenceOptions, SnapshotMode,
};
use crate::replay::{log_image, records_of};
use crate::text::{decimal, number_text};
use crate::time::{duration_from_millis, duration_from_secs, duration_nanos};
use crate::tx::PendingCommit;

verus! {

/// The exceptions that are raised.
#[derive(Debug, Clone, Copy, PartialEq, Eq, Structural)]
pub enum ExceptionKind {
    /// `KeyWriteConflict`
    KeyWriteConflict,
    /// `KeyReadConflict`
    KeyReadConflict,
    /// `KeyAlreadyExists`
    KeyAlreadyExists,
    /// `TxClosed`
    TxClosed,
    /// `TxNotWritable`
    TxNotWritable,
    /// `OSError`
    OsError,
}

/// The exception that an error becomes.
pub open spec fn kind_of(e: Error) -> ExceptionKind {
    match e {
        Error::KeyWriteConflict => ExceptionKind::KeyWriteConflict,
        Error::KeyReadConflict => ExceptionKind::KeyReadConflict,
        Error::KeyAlreadyExists => ExceptionKind::KeyAlreadyExists,
        Error::TxClosed => ExceptionKind::TxClosed,
        Error::TxNotWritable => ExceptionKind::TxNotWritable,
        Error::TxCommitNotPersisted(_) => ExceptionKind::OsError,
    }
}

/// The text of the exception. Where the log failed, it is what is said of that.
pub open spec fn is_text_of(text: Seq<char>, e: Error) -> bool {
    match e {
        Error::KeyWriteConflict => text == "write-write conflict detected"@,
        Error::KeyReadConflict => {
            text == "read-write conflict detected (Serializable Snapshot Isolation)"@
        },
        Error::KeyAlreadyExists => text == "key already exists"@,
        Error::TxClosed => text == "transaction is closed"@,
        Error::TxNotWritable => text == "transaction is read-only"@,
        Error::TxCommitNotPersisted(p) => p.worded(text),
    }
}

/// An exception with its text is what an error becomes.
pub open spec fn raises(r: (ExceptionKind, String), e: Error) -> bool {
    &&& r.0 == kind_of(e)
    &&& is_text_of(r.1@, e)
}

/// An exception with its text is what a commit that cannot be written as bytes becomes.
pub open spec fn raises_unencoded(r: (ExceptionKind, String)) -> bool {
    exists|e: PersistenceError|
        e is Serialization && #[trigger] raises(r, Error::TxCommitNotPersisted(e))
}

/// The exception that an error becomes, and its text.
pub fn tx_err_to_py(e: Error) -> (r: (ExceptionKind, String))
    ensures
        raises(r, e),
{
    match e {
        Error::KeyWriteConflict => (
            ExceptionKind::KeyWriteConflict,
            "write-write conflict detected".to_owned(),
        ),
        Error::KeyReadConflict => (
            ExceptionKind::KeyReadConflict,
            "read-write conflict detected (Serializable Snapshot Isolation)".to_owned(),
        ),
        Error::KeyAlreadyExists => (
            ExceptionKind::KeyAlreadyExists,
            "key already exists".to_owned(),
        ),
        Error::TxClosed => (ExceptionKind::TxClosed, "transaction is closed".to_owned()),
        Error::TxNotWritable => (
            ExceptionKind::TxNotWritable,
            "transaction is read-only".to_owned(),
        ),
        Error::TxCommitNotPersisted(p) => (ExceptionKind::OsError, p.message()),
    }
}

/// The exception that a failure to open a database becomes, and its text.
pub fn open_err_to_py(e: PersistenceError) -> (r: (ExceptionKind, String))
    ensures
        r.0 == ExceptionKind::OsError,
        e.worded(r.1@),
{
    (ExceptionKind::OsError, e.message())
}

/// What leaving a `with` block does to its transaction.
#[derive(Debug, Clone, Copy, PartialEq, Eq, Structural)]
pub enum ExitAction {
    /// Nothing.
    Nothing,
    /// Commit.
    Commit,
    /// Cancel.
    Cancel,
}

/// What leaving a `with` block does: nothing to a closed transaction, a cancellation where an
/// exception is on its way, and a commit otherwise.
pub fn exit_action(closed: bool, raising: bool) -> (r: ExitAction)
    ensures
        r == (if closed {
            ExitAction::Nothing
        } else if raising {
            ExitAction::Cancel
        } else {
            ExitAction::Commit
        }),
{
    if closed {
        ExitAction::Nothing
    } else if raising {
        ExitAction::Cancel
    } else {
        ExitAction::Commit
    }
}

/// A truth value in words.
pub open spec fn bool_text(b: bool) -> Seq<char> {
    if b {
        "true"@
    } else {
        "false"@
    }
}

/// A truth value in words.
fn bool_str(b: bool) -> (r: &'static str)
    ensures
        r@ == bool_text(b),
{
    if b {
        "true"
    } else {
        "false"
    }
}

/// A transaction as Python holds it. There is none once it was taken away.
pub struct PyTransaction {
    inner: Option<Transaction>,
}

impl PyTransaction {
    /// The transaction that is held.
    pub closed spec fn held(&self) -> Option<Transaction> {
        self.inner
    }

    /// What every call keeps.
    pub open spec fn wf(&self) -> bool {
        self.held() matches Some(t) ==> t.wf()
    }

    /// Whether there is no transaction, or a closed one.
    pub open spec fn is_closed(&self) -> bool {
        match self.held() {
            Some(t) => t@.done,
            None => true,
        }
    }

    /// Holds a transaction.
    pub fn new(tx: Transaction) -> (r: Self)
        requires
            tx.wf(),
        ensures
            r.wf(),
            r.held() == Some(tx),
    {
        PyTransaction { inner: Some(tx) }
    }

    /// Takes the transaction away, so that it can go back to its database.
    pub fn take(&mut self) -> (r: Option<Transaction>)
        ensures
            r == old(self).held(),
            final(self).held() is None,
            final(self).wf(),
    {
        self.inner.take()
    }

    /// Checks writes alone at commit.
    pub fn with_snapshot_isolation(&mut self)
        requires
            old(self).wf(),
        ensures
            final(self).wf(),
            match old(self).held() {
                Some(t) => final(self).held() matches Some(u) && u@ == (TxState { ssi: false, ..t@
                }) && u.write_list() == t.write_list(),
                None => final(self).held() is None,
            },
    {
        if let Some(t) = self.inner.take() {
            self.inner = Some(t.with_snapshot_isolation());
        }
    }

    /// Checks reads at commit, too.
    pub fn with_serializable_snapshot_isolation(&mut self)
        requires
            old(self).wf(),
        ensures
            final(self).wf(),
            match old(self).held() {
                Some(t) => final(self).held() matches Some(u) && u@ == (TxState { ssi: true, ..t@
                }) && u.write_list() == t.write_list(),
                None => final(self).held() is None,
            },
    {
        if let Some(t) = self.inner.take() {
            self.inner = Some(t.with_serializable_snapshot_isolation());
        }
    }

    /// The version at which the transaction reads; 0 where there is none.
    pub fn version(&self) -> (r: u64)
        ensures
            r == (match self.held() {
                Some(t) => t@.version,
                None => 0,
            }),
    {
        match &self.inner {
            Some(t) => t.version(),
            None => 0,
        }
    }

    /// Whether the transaction was committed or cancelled, or there is none.
    pub fn closed(&self) -> (r: bool)
        ensures
            r == self.is_closed(),
    {
        match &self.inner {
            Some(t) => t.closed(),
            None => true,
        }
    }

    /// Commits where the clock reads `now`, up to the point where the log has to be written.
    pub fn commit_start_at(&mut self, db: &mut Database, now: u64) -> (r: Result<
        CommitStep,
        (ExceptionKind, String),
    >)
        requires
            old(self).wf(),
            old(db).wf(),
            old(db)@.can_commit(),
            old(self).held() matches Some(t) ==> old(db)@.registered(t@),
        ensures
            final(self).wf(),
            final(db).wf(),
            final(db).same_setup(*old(db)),
            match old(self).held() {
                None => {
                    &&& r matches Err(raised)
                    &&& raises(raised, Error::TxClosed)
                    &&& final(self).held() is None
                    &&& final(db)@ == old(db)@
                    &&& final(db).log_queue() == old(db).log_queue()
                },
                Some(t) => {
                    &&& final(self).held() matches Some(u)
                    &&& final(db).log_queue() == old(db).log_queue_after(t@, t.write_list(), now)
                    &&& final(db)@ == old(db).commit_started_at(t@, t.write_list(), now)
                    &&& u@ == (if r matches Ok(CommitStep::Log(..)) {
                        TxState { done: true, writes: Map::empty(), ..t@ }
                    } else {
                        t@.after_commit(old(db)@.outcome(t@))
                    })
                    &&& match old(db)@.outcome(t@) {
                        Outcome::Closed => r matches Err(raised) && raises(raised, Error::TxClosed),
                        Outcome::Empty => r matches Ok(CommitStep::Done),
                        Outcome::WriteConflict => r matches Err(raised) && raises(
                            raised,
                            Error::KeyWriteConflict,
                        ),
                        Outcome::ReadConflict => r matches Err(raised) && raises(
                            raised,
                            Error::KeyReadConflict,
                        ),
                        Outcome::Applied => if old(db).log_mode()
                            == AolMode::SynchronousOnCommit {
                            match log_image(
                                records_of(old(db)@.next_version(now), t.write_list()),
                            ) {
                                Some(b) => {
                                    &&& r matches Ok(CommitStep::Log(pending, bytes))
                                    &&& pending.is_commit_of(
                                        old(db)@,
                                        t@.writes,
                                        t.write_list(),
                                        now,
                                    )
                                    &&& bytes@ == b
                                },
                                None => {
                                    &&& r matches Err(raised)
                                    &&& raises_unencoded(raised)
                                },
                            }
                        } else {
                            r matches Ok(CommitStep::Done)
                        },
                    }
                },
            },
    {
        match self.inner.take() {
            None => Err(tx_err_to_py(Error::TxClosed)),
            Some(t) => {
                let mut t = t;
                let result = t.commit_start_at(db, now);
                self.inner = Some(t);
                match result {
                    Ok(step) => Ok(step),
                    Err(e) => {
                        let ghost failed = e;
                        let raised = tx_err_to_py(e);
                        proof {
                            if let Error::TxCommitNotPersisted(cause) = failed {
                                assert(raises(raised, Error::TxCommitNotPersisted(cause)));
                                assert(cause is Serialization ==> raises_unencoded(raised));
                            }
                        }
                        Err(raised)
                    },
                }
            },
        }
    }

    /// Ends a commit whose writes had to go to the log. Where the log could not be written, the
    /// commit is taken back.
    pub fn commit_finish(
        &mut self,
        db: &mut Database,
        pending: PendingCommit,
        logged: Result<(), PersistenceError>,
    ) -> (r: Result<(), (ExceptionKind, String)>)
        requires
            old(self).wf(),
            old(db).wf(),
            old(self).held() matches Some(t) && t@.done,
            pending.wf(),
        ensures
            final(self).wf(),
            final(db).wf(),
            final(db).same_setup(*old(db)),
            final(db)@ == pending.ended(old(db)@, logged is Ok),
            final(db).log_queue() == old(db).log_queue(),
            final(self).held() matches Some(u) && u@ == old(self).held()->0@.closed(),
            match logged {
                Ok(_) => r is Ok,
                Err(e) => r matches Err(raised) && raises(raised, Error::TxCommitNotPersisted(e)),
            },
    {
        match self.inner.take() {
            None => Err(tx_err_to_py(Error::TxClosed)),
            Some(t) => {
                let mut t = t;
                let result = t.commit_finish(db, pending, logged);
                self.inner = Some(t);
                match result {
                    Ok(_) => Ok(()),
                    Err(e) => Err(tx_err_to_py(e)),
                }
            },
        }
    }

    /// Closes the transaction without a trace. Nothing happens to one that is closed already.
    pub fn cancel(&mut self) -> (r: Result<(), (ExceptionKind, String)>)
        requires
            old(self).wf(),
        ensures
            final(self).wf(),
            match old(self).held() {
                None => {
                    &&& r matches Err(raised)
                    &&& raises(raised, Error::TxClosed)
                    &&& final(self).held() is None
                },
                Some(t) => {
                    &&& r is Ok
                    &&& final(self).held() matches Some(u)
                    &&& u@ == (if t@.done {
                        t@
                    } else {
                        t@.closed()
                    })
                },
            },
    {
        match self.inner.take() {
            None => Err(tx_err_to_py(Error::TxClosed)),
            Some(t) => {
                let mut t = t;
                if !t.closed() {
                    let _ = t.cancel();
                }
                self.inner = Some(t);
                Ok(())
            },
        }
    }

    /// Whether a key has a value.
    pub fn contains(&mut self, db: &Database, key: &[u8]) -> (r: Result<
        bool,
        (ExceptionKind, String),
    >)
        requires
            old(self).wf(),
            db.wf(),
        ensures
            final(self).wf(),
            if old(self).is_closed() {
                r matches Err(raised) && raises(raised, Error::TxClosed)
            } else {
                r matches Ok(found) && found == (db@.read(old(self).held()->0@, key@) is Some)
            },
            match old(self).held() {
                None => final(self).held() is None,
                Some(t) => final(self).held() matches Some(u) && u@ == (if t@.done {
                    t@
                } else {
                    t@.noted(key@)
                }),
            },
    {
        match self.inner.take() {
            None => Err(tx_err_to_py(Error::TxClosed)),
            Some(t) => {
                let mut t = t;
                let got = t.contains(db, key);
                self.inner = Some(t);
                match got {
                    Ok(found) => Ok(found),
                    Err(e) => Err(tx_err_to_py(e)),
                }
            },
        }
    }

    /// The value of a key.
    pub fn get(&mut self, db: &Database, key: &[u8]) -> (r: Result<
        Option<Bytes>,
        (ExceptionKind, String),
    >)
        requires
            old(self).wf(),
            db.wf(),
        ensures
            final(self).wf(),
            if old(self).is_closed() {
                r matches Err(raised) && raises(raised, Error::TxClosed)
            } else {
                r matches Ok(v) && value_view(v) == db@.read(old(self).held()->0@, key@)
            },
            match old(self).held() {
                None => final(self).held() is None,
                Some(t) => final(self).held() matches Some(u) && u@ == (if t@.done {
                    t@
                } else {
                    t@.noted(key@)
                }),
            },
    {
        match self.inner.take() {
            None => Err(tx_err_to_py(Error::TxClosed)),
            Some(t) => {
                let mut t = t;
                let got = t.get(db, key);
                self.inner = Some(t);
                match got {
                    Ok(v) => Ok(v),
                    Err(e) => Err(tx_err_to_py(e)),
                }
            },
        }
    }

    /// What a write to a key comes to.
    pub open spec fn write_result(
        before: Self,
        after: Self,
        r: Result<(), (ExceptionKind, String)>,
        key: Seq<u8>,
        value: Option<Seq<u8>>,
    ) -> bool {
        match before.held() {
            None => {
                &&& r matches Err(raised)
                &&& raises(raised, Error::TxClosed)
                &&& after.held() is None
            },
            Some(t) => {
                &&& after.held() matches Some(u)
                &&& if t@.done {
                    r matches Err(raised) && raises(raised, Error::TxClosed) && u@ == t@
                } else if !t@.write {
                    r matches Err(raised) && raises(raised, Error::TxNotWritable) && u@ == t@
                } else {
                    r is Ok && u@ == t@.wrote(key, value)
                }
            },
        }
    }

    /// Writes a value to a key.
    pub fn set(&mut self, key: &[u8], value: &[u8]) -> (r: Result<(), (ExceptionKind, String)>)
        requires
            old(self).wf(),
        ensures
            final(self).wf(),
            Self::write_result(*old(self), *final(self), r, key@, Some(value@)),
    {
        match self.inner.take() {
            None => Err(tx_err_to_py(Error::TxClosed)),
            Some(t) => {
                let mut t = t;
                let result = t.set(key, value);
                self.inner = Some(t);
                match result {
                    Ok(_) => Ok(()),
                    Err(e) => Err(tx_err_to_py(e)),
                }
            },
        }
    }

    /// Writes a value to a key that has none.
    pub fn put(&mut self, db: &Database, key: &[u8], value: &[u8]) -> (r: Result<
        (),
        (ExceptionKind, String),
    >)
        requires
            old(self).wf(),
            db.wf(),
        ensures
            final(self).wf(),
            if !old(self).is_closed() && old(self).held()->0@.write && db@.read(
                old(self).held()->0@,
                key@,
            ) is Some {
                &&& r matches Err(raised)
                &&& raises(raised, Error::KeyAlreadyExists)
                &&& final(self).held() matches Some(u)
                &&& u@ == old(self).held()->0@
            } else {
                Self::write_result(*old(self), *final(self), r, key@, Some(value@))
            },
    {
        match self.inner.take() {
            None => Err(tx_err_to_py(Error::TxClosed)),
            Some(t) => {
                let mut t = t;
                let result = t.put(db, key, value);
                self.inner = Some(t);
                match result {
                    Ok(_) => Ok(()),
                    Err(e) => Err(tx_err_to_py(e)),
                }
            },
        }
    }

    /// Deletes a key.
    pub fn delete(&mut self, key: &[u8]) -> (r: Result<(), (ExceptionKind, String)>)
        requires
            old(self).wf(),
        ensures
            final(self).wf(),
            Self::write_result(*old(self), *final(self), r, key@, None),
    {
        match self.inner.take() {
            None => Err(tx_err_to_py(Error::TxClosed)),
            Some(t) => {
                let mut t = t;
                let result = t.del(key);
                self.inner = Some(t);
                match result {
                    Ok(_) => Ok(()),
                    Err(e) => Err(tx_err_to_py(e)),
                }
            },
        }
    }

    /// How the transaction describes itself.
    pub fn repr(&self) -> (r: String)
        ensures
            r@ == transaction_words(
                match self.held() {
                    Some(t) => t@.version,
                    None => 0,
                },
                self.is_closed(),
            ),
    {
        transaction_repr(self.version(), self.closed())
    }
}

/// How a transaction describes itself.
pub open spec fn transaction_words(version: u64, closed: bool) -> Seq<char> {
    "<stupid_kv.Transaction version="@ + decimal(version as nat) + " closed="@ + bool_text(closed)
        + ">"@
}

/// How a transaction describes itself.
pub fn transaction_repr(version: u64, closed: bool) -> (r: String)
    ensures
        r@ == transaction_words(version, closed),
{
    let mut r = "<stupid_kv.Transaction version=".to_owned();
    r.append(number_text(version).as_str());
    r.append(" closed=");
    r.append(bool_str(closed));
    r.append(">");
    r
}

/// Settings of a database as Python holds them: spans of time are given in milliseconds.
pub struct PyDatabaseOptions {
    /// The settings.
    pub inner: DatabaseOptions,
}

impl PyDatabaseOptions {
    /// The default settings.
    pub fn new() -> (r: Self)
        ensures
            r.inner.is_default(),
    {
        PyDatabaseOptions { inner: DatabaseOptions::new() }
    }

    /// Sets how often old versions are collected.
    pub fn with_gc_interval(&mut self, ms: u64)
        ensures
            duration_nanos(final(self).inner.gc_interval) == ms * 1_000_000,
            final(self).inner == (DatabaseOptions {
                gc_interval: final(self).inner.gc_interval,
                ..old(self).inner
            }),
    {
        self.inner.gc_interval = duration_from_millis(ms);
    }

    /// Sets how often the commit queue is cleaned.
    pub fn with_cleanup_interval(&mut self, ms: u64)
        ensures
            duration_nanos(final(self).inner.cleanup_interval) == ms * 1_000_000,
            final(self).inner == (DatabaseOptions {
                cleanup_interval: final(self).inner.cleanup_interval,
                ..old(self).inner
            }),
    {
        self.inner.cleanup_interval = duration_from_millis(ms);
    }

    /// How the settings describe themselves.
    pub fn repr(&self) -> (r: String)
        ensures
            r@ == "<stupid_kv.DatabaseOptions pool_size="@ + decimal(self.inner.pool_size as nat)
                + " cleanup="@ + bool_text(self.inner.enable_cleanup) + " gc="@ + bool_text(
                self.inner.enable_gc,
            ) + ">"@,
    {
        let mut r = "<stupid_kv.DatabaseOptions pool_size=".to_owned();
        r.append(number_text(self.inner.pool_size as u64).as_str());
        r.append(" cleanup=");
        r.append(bool_str(self.inner.enable_cleanup));
        r.append(" gc=");
        r.append(bool_str(self.inner.enable_gc));
        r.append(">");
        r
    }
}

/// Settings of persistence as Python holds them: spans of time are given in seconds, and paths as
/// text.
pub struct PyPersistenceOptions {
    /// The settings.
    pub inner: PersistenceOptions,
}

impl PyPersistenceOptions {
    /// Default settings under a base path.
    pub fn new(base_path: &str) -> (r: Self)
        ensures
            path_text(r.inner.base_path) == Some(base_path@),
            r.inner.is_default_but_base(),
    {
        let mut inner = PersistenceOptions::default();
        inner.base_path = path_from_str(base_path);
        PyPersistenceOptions { inner }
    }

    /// The settings differ in when snapshots are taken, when the log is written and when it is
    /// forced to disk, and in nothing else; snapshots come every so many seconds.
    pub open spec fn rescheduled(self, before: Self, interval_sec: u64) -> bool {
        &&& self.inner == (PersistenceOptions {
            snapshot_mode: self.inner.snapshot_mode,
            aol_mode: self.inner.aol_mode,
            fsync_mode: self.inner.fsync_mode,
            ..before.inner
        })
        &&& self.inner.snapshot_mode matches SnapshotMode::Interval(d)
        &&& duration_nanos(d) == interval_sec * 1_000_000_000
    }

    /// Snapshots alone, every so many seconds.
    pub fn with_pure_snapshot(self, interval_sec: u64) -> (r: Self)
        ensures
            r.rescheduled(self, interval_sec),
            r.inner.aol_mode == AolMode::Never,
            r.inner.fsync_mode == FsyncMode::Never,
    {
        PyPersistenceOptions {
            inner: self.inner.with_pure_snapshot(duration_from_secs(interval_sec)),
        }
    }

    /// Snapshots every so many seconds, with a log that is written behind commits.
    pub fn with_async_aol(self, interval_sec: u64) -> (r: Self)
        ensures
            r.rescheduled(self, interval_sec),
            r.inner.aol_mode == AolMode::AsynchronousAfterCommit,
            r.inner.fsync_mode matches FsyncMode::Interval(d) && duration_nanos(d) == 100_000_000,
    {
        PyPersistenceOptions {
            inner: self.inner.with_async_aol(duration_from_secs(interval_sec)),
        }
    }

    /// Snapshots every so many seconds, with a log that is written by every commit.
    pub fn with_sync_aol(self, interval_sec: u64) -> (r: Self)
        ensures
            r.rescheduled(self, interval_sec),
            r.inner.aol_mode == AolMode::SynchronousOnCommit,
            r.inner.fsync_mode == FsyncMode::EveryAppend,
    {
        PyPersistenceOptions {
            inner: self.inner.with_sync_aol(duration_from_secs(interval_sec)),
        }
    }

    /// Sets where the snapshot goes.
    pub fn with_snapshot_path(self, path: &str) -> (r: Self)
        ensures
            r.inner.snapshot_path matches Some(p) && path_text(p) == Some(path@),
            r.inner == (PersistenceOptions { snapshot_path: r.inner.snapshot_path, ..self.inner }),
    {
        PyPersistenceOptions {
            inner: self.inner.with_snapshot_path(Some(path_from_str(path))),
        }
    }

    /// Sets where the log goes.
    pub fn with_aol_path(self, path: &str) -> (r: Self)
        ensures
            r.inner.aol_path matches Some(p) && path_text(p) == Some(path@),
            r.inner == (PersistenceOptions { aol_path: r.inner.aol_path, ..self.inner }),
    {
        PyPersistenceOptions { inner: self.inner.with_aol_path(Some(path_from_str(path))) }
    }

    /// The base path as text.
    pub fn base_path(&self) -> (r: String)
        ensures
            path_text(self.inner.base_path) matches Some(t) ==> r@ == t,
    {
        path_to_text(&self.inner.base_path)
    }

    /// Sets the base path.
    pub fn set_base_path(&mut self, value: &str)
        ensures
            path_text(final(self).inner.base_path) == Some(value@),
            final(self).inner == (PersistenceOptions {
                base_path: final(self).inner.base_path,
                ..old(self).inner
            }),
    {
        self.inner.base_path = path_from_str(value);
    }

    /// How the settings describe themselves.
    pub fn repr(&self) -> (r: String)
        ensures
            path_text(self.inner.base_path) matches Some(t) ==> r@
                == "<stupid_kv.PersistenceOptions base_path='"@ + t + "'>"@,
            "<stupid_kv.PersistenceOptions base_path='"@.is_prefix_of(r@),
    {
        let mut r = "<stupid_kv.PersistenceOptions base_path='".to_owned();
        r.append(self.base_path().as_str());
        r.append("'>");
        r
    }
}

/// Every error of a transaction becomes an exception of its own.
pub proof fn law_exceptions_tell_errors_apart(a: Error, b: Error)
    ensures
        kind_of(a) == kind_of(b) <==> {
            ||| a is TxClosed && b is TxClosed
            ||| a is KeyWriteConflict && b is KeyWriteConflict
            ||| a is KeyReadConflict && b is KeyReadConflict
            ||| a is TxNotWritable && b is TxNotWritable
            ||| a is KeyAlreadyExists && b is KeyAlreadyExists
            ||| a is TxCommitNotPersisted && b is TxCommitNotPersisted
        },
        a is KeyWriteConflict ==> kind_of(a) == ExceptionKind::KeyWriteConflict,
        a is KeyReadConflict ==> kind_of(a) == ExceptionKind::KeyReadConflict,
        a is KeyAlreadyExists ==> kind_of(a) == ExceptionKind::KeyAlreadyExists,
        a is TxClosed ==> kind_of(a) == ExceptionKind::TxClosed,
        a is TxNotWritable ==> kind_of(a) == ExceptionKind::TxNotWritable,
        a is TxCommitNotPersisted ==> kind_of(a) == ExceptionKind::OsError,
{
}

/// A write works on an open transaction that may write, and keeps its value; a transaction that is
/// gone or closed says that it is closed, and one that may only read says so.
pub proof fn law_python_writes_are_kept(
    before: PyTransaction,
    after: PyTransaction,
    r: Result<(), (ExceptionKind, String)>,
    key: Seq<u8>,
    value: Option<Seq<u8>>,
)
    requires
        PyTransaction::write_result(before, after, r, key, value),
    ensures
        before.held() is None || before.held()->0@.done ==> r is Err && r->Err_0.0
            == ExceptionKind::TxClosed,
        before.held() is Some && !before.held()->0@.done && !before.held()->0@.write ==> r is Err
            && r->Err_0.0 == ExceptionKind::TxNotWritable,
        before.held() is Some && !before.held()->0@.done && before.held()->0@.write ==> {
            &&& r is Ok
            &&& after.held() is Some
            &&& after.held()->0@.writes == before.held()->0@.writes.insert(key, value)
            &&& after.held()->0@.reads == before.held()->0@.reads
            &&& !after.held()->0@.done
        },
{
}

/// A new schedule sets how often snapshots are taken, and leaves paths and compression alone.
pub proof fn law_schedules_leave_the_rest(
    before: PyPersistenceOptions,
    after: PyPersistenceOptions,
    interval_sec: u64,
)
    requires
        after.rescheduled(before, interval_sec),
    ensures
        after.inner.base_path == before.inner.base_path,
        after.inner.snapshot_path == before.inner.snapshot_path,
        after.inner.aol_path == before.inner.aol_path,
        after.inner.compression_mode == before.inner.compression_mode,
        after.inner.snapshot_mode matches SnapshotMode::Interval(d) && duration_nanos(d)
            == interval_sec * 1_000_000_000,
{
}

/// A transaction counts as closed once it was committed or cancelled, or was taken away.
pub proof fn law_closed_or_gone(tx: PyTransaction)
    ensures
        tx.held() is None ==> tx.is_closed(),
        tx.held() is Some ==> tx.is_closed() == tx.held()->0@.done,
{
}

/// An exception is of the kind of its error, and has its text.
pub proof fn law_exceptions_say_what_they_are(r: (ExceptionKind, String), e: Error)
    ensures
        raises(r, e) ==> r.0 == kind_of(e) && is_text_of(r.1@, e),
{
}

} // verus!
