//! The C interface as far as it is plain values: return codes, options, and what calls on a
//! transaction handle come to. Pointers are checked and turned into values around it.

use bytes::Bytes;
use vstd::prelude::*;

use crate::compression::CompressionMode;
use crate::db::{CommitStep, Database, Transaction};
use crate::error::{Error, PersistenceError};
use crate::inner::keys_of;
use crate::kv::value_view;
use crate::model::{EngineState, Outcome, TxState};
use crate::options::{
    path_from_str, path_text, AolMode, DatabaseOptions, FsyncMode, PersistenceOptions,
    SnapshotMode,
};
use crate::replay::{log_image, records_of};
use crate::text::{signed_decimal, signed_text};
use crate::time::{duration_from_millis, duration_nanos};
use crate::tx::PendingCommit;

verus! {

/// It worked.
pub const SK_OK: i32 = 0;

/// The key has no value.
pub const SK_NOT_FOUND: i32 = 1;

/// A pointer was null that must not be.
pub const SK_NULL_ARG: i32 = -1;

/// The transaction was committed or cancelled before.
pub const SK_TX_CLOSED: i32 = -2;

/// The transaction may only read.
pub const SK_TX_NOT_WRITABLE: i32 = -3;

/// Another transaction has committed a write to a key that this one wrote.
pub const SK_WRITE_CONFLICT: i32 = -4;

/// Another transaction has committed a write to a key that this one read.
pub const SK_READ_CONFLICT: i32 = -5;

/// The key has a value already.
pub const SK_ALREADY_EXISTS: i32 = -6;

/// The log could not be written.
pub const SK_COMMIT_NOT_PERSISTED: i32 = -7;

/// The file system failed.
pub const SK_IO: i32 = -8;

/// The program panicked.
pub const SK_PANIC: i32 = -99;

/// What a call comes to: its return code, and a message where it failed.
pub struct Reply {
    pub code: i32,
    pub message: Option<String>,
}

/// The return code of an error.
pub open spec fn code_of(e: Error) -> i32 {
    match e {
        Error::TxClosed => SK_TX_CLOSED,
        Error::KeyWriteConflict => SK_WRITE_CONFLICT,
        Error::KeyReadConflict => SK_READ_CONFLICT,
        Error::TxNotWritable => SK_TX_NOT_WRITABLE,
        Error::KeyAlreadyExists => SK_ALREADY_EXISTS,
        Error::TxCommitNotPersisted(_) => SK_COMMIT_NOT_PERSISTED,
    }
}

/// The message of an error. Where the log failed, it ends with what is said of that.
pub open spec fn is_message_of(m: Seq<char>, e: Error) -> bool {
    match e {
        Error::TxClosed => m == "transaction is closed"@,
        Error::KeyWriteConflict => m == "write conflict, retry the transaction"@,
        Error::KeyReadConflict => m == "read conflict, retry the transaction"@,
        Error::TxNotWritable => m == "transaction is not writable"@,
        Error::KeyAlreadyExists => m == "key already exists"@,
        Error::TxCommitNotPersisted(p) => exists|cause: Seq<char>| #[trigger]
            p.worded(cause) && m == "commit not persisted: "@ + cause,
    }
}

/// A reply to a call that worked.
pub open spec fn is_ok_reply(r: Reply) -> bool {
    r.code == SK_OK && r.message is None
}

/// A reply to a call that failed with an error.
pub open spec fn is_error_reply(r: Reply, e: Error) -> bool {
    &&& r.code == code_of(e)
    &&& r.message matches Some(m)
    &&& is_message_of(m@, e)
}

/// A reply to a commit that cannot be written as bytes.
pub open spec fn is_unencoded_reply(r: Reply) -> bool {
    exists|e: PersistenceError|
        e is Serialization && #[trigger] is_error_reply(r, Error::TxCommitNotPersisted(e))
}

/// The return code and the message of an error.
pub fn map_err(e: Error) -> (r: Reply)
    ensures
        is_error_reply(r, e),
{
    match e {
        Error::TxClosed => Reply {
            code: SK_TX_CLOSED,
            message: Some("transaction is closed".to_owned()),
        },
        Error::KeyWriteConflict => Reply {
            code: SK_WRITE_CONFLICT,
            message: Some("write conflict, retry the transaction".to_owned()),
        },
        Error::KeyReadConflict => Reply {
            code: SK_READ_CONFLICT,
            message: Some("read conflict, retry the transaction".to_owned()),
        },
        Error::TxNotWritable => Reply {
            code: SK_TX_NOT_WRITABLE,
            message: Some("transaction is not writable".to_owned()),
        },
        Error::KeyAlreadyExists => Reply {
            code: SK_ALREADY_EXISTS,
            message: Some("key already exists".to_owned()),
        },
        Error::TxCommitNotPersisted(p) => {
            let mut m = "commit not persisted: ".to_owned();
            m.append(p.message().as_str());
            Reply { code: SK_COMMIT_NOT_PERSISTED, message: Some(m) }
        },
    }
}

/// Whether a buffer can be read: a null pointer has to come with a length of 0.
pub open spec fn sound(null: bool, len: usize) -> bool {
    !null || len == 0
}

/// Whether a buffer can be read.
pub fn buffer_is_sound(null: bool, len: usize) -> (r: bool)
    ensures
        r == sound(null, len),
{
    !null || len == 0
}

/// A reply to a call that failed with this code and this message.
pub open spec fn is_failure(r: Reply, code: i32, message: Seq<char>) -> bool {
    &&& r.code == code
    &&& r.message matches Some(m)
    &&& m@ == message
}

/// What is said of buffers that cannot be read: for each of them, whether its pointer is null, and
/// its length. The key comes first.
pub fn check_buffers(key: (bool, usize), value: Option<(bool, usize)>) -> (r: Option<Reply>)
    ensures
        match r {
            None => sound(key.0, key.1) && (value matches Some(v) ==> sound(v.0, v.1)),
            Some(reply) => if !sound(key.0, key.1) {
                is_failure(reply, SK_NULL_ARG, "invalid key buffer"@)
            } else {
                &&& value matches Some(v)
                &&& !sound(v.0, v.1)
                &&& is_failure(reply, SK_NULL_ARG, "invalid value buffer"@)
            },
        },
{
    if !buffer_is_sound(key.0, key.1) {
        return Some(
            Reply { code: SK_NULL_ARG, message: Some("invalid key buffer".to_owned()) },
        );
    }
    if let Some((null, len)) = value {
        if !buffer_is_sound(null, len) {
            return Some(
                Reply { code: SK_NULL_ARG, message: Some("invalid value buffer".to_owned()) },
            );
        }
    }
    None
}

/// The reply of a call that panicked.
pub fn panicked() -> (r: Reply)
    ensures
        is_failure(r, SK_PANIC, "rust panic escaped the FFI boundary"@),
{
    Reply { code: SK_PANIC, message: Some("rust panic escaped the FFI boundary".to_owned()) }
}

/// The reply of a call that a failure of persistence ended.
pub fn map_persistence_err(e: PersistenceError) -> (r: Reply)
    ensures
        r.code == SK_IO,
        r.message matches Some(m) && e.worded(m@),
{
    Reply { code: SK_IO, message: Some(e.message()) }
}

/// Settings of a database. A number of 0, and a switch of -1, leave the default in place.
pub struct SkDbOptions {
    pub gc_interval_ms: u64,
    pub cleanup_interval_ms: u64,
    pub gc_full_scan_frequency: u64,
    pub pool_size: u64,
    pub reset_threshold: u64,
    pub enable_cleanup: i32,
    pub enable_gc: i32,
}

/// A span of milliseconds, or a default where it is 0.
pub open spec fn interval_or(ms: u64, default_nanos: nat) -> nat {
    if ms != 0 {
        (ms * 1_000_000) as nat
    } else {
        default_nanos
    }
}

/// A switch, or `true` where it is negative.
pub open spec fn switch_or_on(v: i32) -> bool {
    v < 0 || v != 0
}

impl SkDbOptions {
    /// The settings are those that the numbers stand for.
    pub open spec fn means(&self, o: DatabaseOptions) -> bool {
        &&& duration_nanos(o.gc_interval) == interval_or(self.gc_interval_ms, 500_000_000)
        &&& duration_nanos(o.cleanup_interval) == interval_or(
            self.cleanup_interval_ms,
            1_000_000_000,
        )
        &&& duration_nanos(o.resync_interval) == 5_000_000_000
        &&& o.gc_full_scan_frequency == (if self.gc_full_scan_frequency != 0 {
            self.gc_full_scan_frequency
        } else {
            crate::options::DEFAULT_GC_FULL_SCAN_FREQUENCY
        })
        &&& o.pool_size == (if self.pool_size != 0 {
            self.pool_size as usize
        } else {
            crate::options::DEFAULT_POOL_SIZE
        })
        &&& o.reset_threshold == (if self.reset_threshold != 0 {
            self.reset_threshold as usize
        } else {
            crate::options::DEFAULT_RESET_THRESHOLD
        })
        &&& o.enable_cleanup == switch_or_on(self.enable_cleanup)
        &&& o.enable_gc == switch_or_on(self.enable_gc)
    }

    /// The settings that these stand for.
    pub fn to_kv(&self) -> (r: DatabaseOptions)
        ensures
            self.means(r),
    {
        let mut o = DatabaseOptions::new();
        if self.gc_interval_ms != 0 {
            o.gc_interval = duration_from_millis(self.gc_interval_ms);
        }
        if self.cleanup_interval_ms != 0 {
            o.cleanup_interval = duration_from_millis(self.cleanup_interval_ms);
        }
        if self.gc_full_scan_frequency != 0 {
            o.gc_full_scan_frequency = self.gc_full_scan_frequency;
        }
        if self.pool_size != 0 {
            o.pool_size = self.pool_size as usize;
        }
        if self.reset_threshold != 0 {
            o.reset_threshold = self.reset_threshold as usize;
        }
        if self.enable_cleanup >= 0 {
            o.enable_cleanup = self.enable_cleanup != 0;
        }
        if self.enable_gc >= 0 {
            o.enable_gc = self.enable_gc != 0;
        }
        o
    }
}

/// Settings of persistence. A path is `None` where its pointer is null.
pub struct SkPersistOptions {
    pub base_path: Option<String>,
    pub snapshot_path: Option<String>,
    pub aol_path: Option<String>,
    pub snapshot_mode: i32,
    pub snapshot_interval_ms: u64,
    pub aol_mode: i32,
    pub fsync_mode: i32,
    pub fsync_interval_ms: u64,
    pub compression: i32,
}

/// A message about a setting that has no meaning.
fn invalid(what: &str, value: i32) -> (r: String)
    ensures
        r@ == what@ + signed_decimal(value as int),
{
    let mut r = what.to_owned();
    r.append(signed_text(value).as_str());
    r
}

/// A path as text agrees with an optional text.
pub open spec fn path_agrees(p: Option<std::path::PathBuf>, t: Option<String>) -> bool {
    match (p, t) {
        (Some(path), Some(text)) => path_text(path) == Some(text@),
        (None, None) => true,
        _ => false,
    }
}

impl SkPersistOptions {
    /// What is wrong with the settings; the first fault counts.
    pub open spec fn fault(&self) -> Option<Seq<char>> {
        if self.base_path is None {
            Some("base_path is NULL"@)
        } else if !(0 <= self.snapshot_mode <= 1) {
            Some("invalid snapshot_mode: "@ + signed_decimal(self.snapshot_mode as int))
        } else if !(0 <= self.aol_mode <= 2) {
            Some("invalid aol_mode: "@ + signed_decimal(self.aol_mode as int))
        } else if !(0 <= self.fsync_mode <= 2) {
            Some("invalid fsync_mode: "@ + signed_decimal(self.fsync_mode as int))
        } else if !(0 <= self.compression <= 1) {
            Some("invalid compression: "@ + signed_decimal(self.compression as int))
        } else {
            None
        }
    }

    /// The settings are those that the numbers stand for.
    pub open spec fn means(&self, o: PersistenceOptions) -> bool {
        &&& path_text(o.base_path) == Some(self.base_path->0@)
        &&& path_agrees(o.snapshot_path, self.snapshot_path)
        &&& path_agrees(o.aol_path, self.aol_path)
        &&& match o.snapshot_mode {
            SnapshotMode::Never => self.snapshot_mode == 0,
            SnapshotMode::Interval(d) => self.snapshot_mode == 1 && duration_nanos(d)
                == self.snapshot_interval_ms * 1_000_000,
        }
        &&& match o.aol_mode {
            AolMode::Never => self.aol_mode == 0,
            AolMode::SynchronousOnCommit => self.aol_mode == 1,
            AolMode::AsynchronousAfterCommit => self.aol_mode == 2,
        }
        &&& match o.fsync_mode {
            FsyncMode::Never => self.fsync_mode == 0,
            FsyncMode::EveryAppend => self.fsync_mode == 1,
            FsyncMode::Interval(d) => self.fsync_mode == 2 && duration_nanos(d) == (
            if self.fsync_interval_ms == 0 {
                1
            } else {
                self.fsync_interval_ms
            }) * 1_000_000,
        }
        &&& match o.compression_mode {
            CompressionMode::Uncompressed => self.compression == 0,
            CompressionMode::Lz4 => self.compression == 1,
        }
    }

    /// The settings that these stand for, or what is wrong with them.
    pub fn to_kv(&self) -> (r: Result<PersistenceOptions, String>)
        ensures
            match r {
                Ok(o) => self.fault() is None && self.means(o),
                Err(m) => self.fault() == Some(m@),
            },
    {
        let base = match &self.base_path {
            Some(b) => b,
            None => {
                return Err("base_path is NULL".to_owned());
            },
        };
        let snapshot_mode = match self.snapshot_mode {
            0 => SnapshotMode::Never,
            1 => SnapshotMode::Interval(duration_from_millis(self.snapshot_interval_ms)),
            other => {
                return Err(invalid("invalid snapshot_mode: ", other));
            },
        };
        let aol_mode = match self.aol_mode {
            0 => AolMode::Never,
            1 => AolMode::SynchronousOnCommit,
            2 => AolMode::AsynchronousAfterCommit,
            other => {
                return Err(invalid("invalid aol_mode: ", other));
            },
        };
        let fsync_ms: u64 = if self.fsync_interval_ms == 0 {
            1
        } else {
            self.fsync_interval_ms
        };
        let fsync_mode = match self.fsync_mode {
            0 => FsyncMode::Never,
            1 => FsyncMode::EveryAppend,
            2 => FsyncMode::Interval(duration_from_millis(fsync_ms)),
            other => {
                return Err(invalid("invalid fsync_mode: ", other));
            },
        };
        let compression_mode = match self.compression {
            0 => CompressionMode::Uncompressed,
            1 => CompressionMode::Lz4,
            other => {
                return Err(invalid("invalid compression: ", other));
            },
        };
        let mut o = PersistenceOptions::default();
        o.base_path = path_from_str(base.as_str());
        if let Some(p) = &self.snapshot_path {
            o.snapshot_path = Some(path_from_str(p.as_str()));
        }
        if let Some(p) = &self.aol_path {
            o.aol_path = Some(path_from_str(p.as_str()));
        }
        o.snapshot_mode = snapshot_mode;
        o.aol_mode = aol_mode;
        o.fsync_mode = fsync_mode;
        o.compression_mode = compression_mode;
        Ok(o)
    }
}

/// The settings of a database that is opened with these; the default ones where there are none.
pub fn db_options(opts: Option<&SkDbOptions>) -> (r: DatabaseOptions)
    ensures
        match opts {
            Some(o) => o.means(r),
            None => r.is_default(),
        },
{
    match opts {
        Some(o) => o.to_kv(),
        None => DatabaseOptions::new(),
    }
}

/// The settings of persistence of a database that is opened with these, or why it cannot be
/// opened.
pub fn persist_options(popts: Option<&SkPersistOptions>) -> (r: Result<PersistenceOptions, Reply>)
    ensures
        match popts {
            None => r matches Err(reply) && is_failure(reply, SK_NULL_ARG, "popts is NULL"@),
            Some(p) => match p.fault() {
                Some(m) => r matches Err(reply) && is_failure(reply, SK_NULL_ARG, m),
                None => r matches Ok(o) && p.means(o),
            },
        },
{
    match popts {
        None => Err(Reply { code: SK_NULL_ARG, message: Some("popts is NULL".to_owned()) }),
        Some(p) => match p.to_kv() {
            Ok(o) => Ok(o),
            Err(m) => Err(Reply { code: SK_NULL_ARG, message: Some(m) }),
        },
    }
}

/// A write through a handle.
#[derive(Debug, Clone, Copy, PartialEq, Eq, Structural)]
pub enum WriteOp {
    /// Write a value.
    Assign,
    /// Write a value to a key that has none.
    Put,
    /// Delete.
    Del,
}

/// How a write through a handle fails; `None` where it does not.
pub open spec fn write_failure(
    s: EngineState,
    tx: TxState,
    op: WriteOp,
    key: Seq<u8>,
    value: Option<Seq<u8>>,
) -> Option<Error> {
    if op != WriteOp::Del && value is None {
        Some(Error::TxNotWritable)
    } else if tx.done {
        Some(Error::TxClosed)
    } else if !tx.write {
        Some(Error::TxNotWritable)
    } else if op == WriteOp::Put && s.read(tx, key) is Some {
        Some(Error::KeyAlreadyExists)
    } else {
        None
    }
}

/// What a write through a handle writes.
pub open spec fn written_value(op: WriteOp, value: Option<Seq<u8>>) -> Option<Seq<u8>> {
    if op == WriteOp::Del {
        None
    } else {
        value
    }
}

/// What an optional slice holds.
pub open spec fn slice_view(v: Option<&[u8]>) -> Option<Seq<u8>> {
    match v {
        Some(s) => Some(s@),
        None => None,
    }
}

/// A transaction behind a handle. There is none once it was taken away.
pub struct TxHandle {
    tx: Option<Transaction>,
}

impl TxHandle {
    /// The transaction behind the handle.
    pub closed spec fn held(&self) -> Option<Transaction> {
        self.tx
    }

    /// What every call keeps.
    pub open spec fn wf(&self) -> bool {
        self.held() matches Some(t) ==> t.wf()
    }

    /// A handle on a transaction.
    pub fn new(tx: Transaction) -> (r: Self)
        requires
            tx.wf(),
        ensures
            r.wf(),
            r.held() == Some(tx),
    {
        TxHandle { tx: Some(tx) }
    }

    /// Takes the transaction away, so that it can go back to its database.
    pub fn take(&mut self) -> (r: Option<Transaction>)
        ensures
            r == old(self).held(),
            final(self).held() is None,
            final(self).wf(),
    {
        self.tx.take()
    }

    /// The version at which the transaction reads; 0 where there is none.
    pub fn version(&self) -> (r: u64)
        ensures
            r == (match self.held() {
                Some(t) => t@.version,
                None => 0,
            }),
    {
        match &self.tx {
            Some(t) => t.version(),
            None => 0,
        }
    }

    /// 1 where the transaction was closed or there is none, and 0 otherwise.
    pub fn is_closed(&self) -> (r: i32)
        ensures
            r == (match self.held() {
                Some(t) => if t@.done {
                    1i32
                } else {
                    0
                },
                None => 1,
            }),
    {
        match &self.tx {
            Some(t) => if t.closed() {
                1
            } else {
                0
            },
            None => 1,
        }
    }

    /// Sets what is checked at commit: reads, too, where `ssi` is set.
    pub fn switch_isolation(&mut self, ssi: bool) -> (r: Reply)
        requires
            old(self).wf(),
        ensures
            final(self).wf(),
            match old(self).held() {
                Some(t) => {
                    &&& is_ok_reply(r)
                    &&& final(self).held() matches Some(u)
                    &&& u@ == (TxState { ssi, ..t@ })
                },
                None => is_error_reply(r, Error::TxClosed) && final(self).held() is None,
            },
    {
        match self.tx.take() {
            Some(t) => {
                self.tx = Some(
                    if ssi {
                        t.with_serializable_snapshot_isolation()
                    } else {
                        t.with_snapshot_isolation()
                    },
                );
                Reply { code: SK_OK, message: None }
            },
            None => map_err(Error::TxClosed),
        }
    }

    /// Reads a key.
    pub fn get(&mut self, db: &Database, key: &[u8]) -> (r: (Reply, Option<Bytes>))
        requires
            old(self).wf(),
            db.wf(),
        ensures
            final(self).wf(),
            match old(self).held() {
                None => is_error_reply(r.0, Error::TxClosed) && r.1 is None && final(self).held() is None,
                Some(t) => {
                    &&& final(self).held() matches Some(u)
                    &&& if t@.done {
                        is_error_reply(r.0, Error::TxClosed) && r.1 is None && u@ == t@
                    } else {
                        &&& r.0.code == (if db@.read(t@, key@) is Some {
                            SK_OK
                        } else {
                            SK_NOT_FOUND
                        })
                        &&& r.0.message is None
                        &&& value_view(r.1) == db@.read(t@, key@)
                        &&& u@ == t@.noted(key@)
                    }
                },
            },
    {
        match self.tx.take() {
            None => (map_err(Error::TxClosed), None),
            Some(t) => {
                let mut t = t;
                let got = t.get(db, key);
                self.tx = Some(t);
                match got {
                    Ok(Some(v)) => (Reply { code: SK_OK, message: None }, Some(v)),
                    Ok(None) => (Reply { code: SK_NOT_FOUND, message: None }, None),
                    Err(e) => (map_err(e), None),
                }
            },
        }
    }

    /// Says whether a key has a value: 1 or 0.
    pub fn contains(&mut self, db: &Database, key: &[u8]) -> (r: (Reply, i32))
        requires
            old(self).wf(),
            db.wf(),
        ensures
            final(self).wf(),
            match old(self).held() {
                None => is_error_reply(r.0, Error::TxClosed) && r.1 == 0 && final(self).held() is None,
                Some(t) => {
                    &&& final(self).held() matches Some(u)
                    &&& if t@.done {
                        is_error_reply(r.0, Error::TxClosed) && r.1 == 0 && u@ == t@
                    } else {
                        &&& is_ok_reply(r.0)
                        &&& r.1 == (if db@.read(t@, key@) is Some {
                            1i32
                        } else {
                            0
                        })
                        &&& u@ == t@.noted(key@)
                    }
                },
            },
    {
        match self.tx.take() {
            None => (map_err(Error::TxClosed), 0),
            Some(t) => {
                let mut t = t;
                let got = t.contains(db, key);
                self.tx = Some(t);
                match got {
                    Ok(found) => (
                        Reply { code: SK_OK, message: None },
                        if found {
                            1
                        } else {
                            0
                        },
                    ),
                    Err(e) => (map_err(e), 0),
                }
            },
        }
    }

    /// Writes or deletes a key.
    pub fn write_op(
        &mut self,
        db: &Database,
        key: &[u8],
        value: Option<&[u8]>,
        op: WriteOp,
    ) -> (r: Reply)
        requires
            old(self).wf(),
            db.wf(),
        ensures
            final(self).wf(),
            match old(self).held() {
                None => is_error_reply(r, Error::TxClosed) && final(self).held() is None,
                Some(t) => {
                    &&& final(self).held() matches Some(u)
                    &&& match write_failure(db@, t@, op, key@, slice_view(value)) {
                        Some(e) => is_error_reply(r, e) && u@ == t@,
                        None => is_ok_reply(r) && u@ == t@.wrote(
                            key@,
                            written_value(op, slice_view(value)),
                        ),
                    }
                },
            },
    {
        match self.tx.take() {
            None => map_err(Error::TxClosed),
            Some(t) => {
                let mut t = t;
                let result = match op {
                    WriteOp::Assign => match value {
                        Some(v) => t.set(key, v),
                        None => Err(Error::TxNotWritable),
                    },
                    WriteOp::Put => match value {
                        Some(v) => t.put(db, key, v),
                        None => Err(Error::TxNotWritable),
                    },
                    WriteOp::Del => t.del(key),
                };
                self.tx = Some(t);
                match result {
                    Ok(_) => Reply { code: SK_OK, message: None },
                    Err(e) => map_err(e),
                }
            },
        }
    }

    /// Commits where the clock reads `now`, up to the point where the log has to be written.
    pub fn commit_start_at(&mut self, db: &mut Database, now: u64) -> (r: Result<CommitStep, Reply>)
        requires
            old(self).wf(),
            old(db).wf(),
            old(db)@.can_commit(),
            old(self).held() matches Some(t) ==> old(db)@.registered(t@),
        ensures
            final(self).wf(),
            final(db).wf(),
            final(db).same_setup(*old(db)),
            match old(self).held() {
                None => {
                    &&& r matches Err(reply)
                    &&& is_error_reply(reply, Error::TxClosed)
                    &&& final(self).held() is None
                    &&& final(db)@ == old(db)@
                    &&& final(db).log_queue() == old(db).log_queue()
                },
                Some(t) => {
                    &&& final(self).held() matches Some(u)
                    &&& final(db).log_queue() == old(db).log_queue_after(t@, t.write_list(), now)
                    &&& final(db)@ == old(db).commit_started_at(t@, t.write_list(), now)
                    &&& u@ == (if r matches Ok(CommitStep::Log(..)) {
                        TxState { done: true, writes: Map::empty(), ..t@ }
                    } else {
                        t@.after_commit(old(db)@.outcome(t@))
                    })
                    &&& match old(db)@.outcome(t@) {
                        Outcome::Closed => r matches Err(reply) && is_error_reply(
                            reply,
                            Error::TxClosed,
                        ),
                        Outcome::Empty => r matches Ok(CommitStep::Done),
                        Outcome::WriteConflict => r matches Err(reply) && is_error_reply(
                            reply,
                            Error::KeyWriteConflict,
                        ),
                        Outcome::ReadConflict => r matches Err(reply) && is_error_reply(
                            reply,
                            Error::KeyReadConflict,
                        ),
                        Outcome::Applied => if old(db).log_mode()
                            == AolMode::SynchronousOnCommit {
                            match log_image(
                                records_of(old(db)@.next_version(now), t.write_list()),
                            ) {
                                Some(b) => {
                                    &&& r matches Ok(CommitStep::Log(pending, bytes))
                                    &&& pending.is_commit_of(
                                        old(db)@,
                                        t@.writes,
                                        t.write_list(),
                                        now,
                                    )
                                    &&& bytes@ == b
                                },
                                None => {
                                    &&& r matches Err(reply)
                                    &&& is_unencoded_reply(reply)
                                },
                            }
                        } else {
                            r matches Ok(CommitStep::Done)
                        },
                    }
                },
            },
    {
        match self.tx.take() {
            None => Err(map_err(Error::TxClosed)),
            Some(t) => {
                let mut t = t;
                let result = t.commit_start_at(db, now);
                self.tx = Some(t);
                match result {
                    Ok(step) => Ok(step),
                    Err(e) => {
                        let ghost failed = e;
                        let reply = map_err(e);
                        proof {
                            if let Error::TxCommitNotPersisted(cause) = failed {
                                assert(is_error_reply(reply, Error::TxCommitNotPersisted(cause)));
                                assert(cause is Serialization ==> is_unencoded_reply(reply));
                            }
                        }
                        Err(reply)
                    },
                }
            },
        }
    }

    /// Ends a commit whose writes had to go to the log. Where the log could not be written, the
    /// commit is taken back.
    pub fn commit_finish(
        &mut self,
        db: &mut Database,
        pending: PendingCommit,
        logged: Result<(), PersistenceError>,
    ) -> (r: Reply)
        requires
            old(self).wf(),
            old(db).wf(),
            old(self).held() matches Some(t) && t@.done,
            pending.wf(),
        ensures
            final(self).wf(),
            final(db).wf(),
            final(db).same_setup(*old(db)),
            final(db)@ == pending.ended(old(db)@, logged is Ok),
            final(db).log_queue() == old(db).log_queue(),
            final(self).held() matches Some(u) && u@ == old(self).held()->0@.closed(),
            match logged {
                Ok(_) => is_ok_reply(r),
                Err(e) => is_error_reply(r, Error::TxCommitNotPersisted(e)),
            },
    {
        match self.tx.take() {
            None => map_err(Error::TxClosed),
            Some(t) => {
                let mut t = t;
                let result = t.commit_finish(db, pending, logged);
                self.tx = Some(t);
                match result {
                    Ok(_) => Reply { code: SK_OK, message: None },
                    Err(e) => map_err(e),
                }
            },
        }
    }

    /// Closes the transaction without a trace.
    pub fn cancel(&mut self) -> (r: Reply)
        requires
            old(self).wf(),
        ensures
            final(self).wf(),
            match old(self).held() {
                None => is_error_reply(r, Error::TxClosed) && final(self).held() is None,
                Some(t) => {
                    &&& final(self).held() matches Some(u)
                    &&& if t@.done {
                        is_error_reply(r, Error::TxClosed) && u@ == t@
                    } else {
                        is_ok_reply(r) && u@ == t@.closed()
                    }
                },
            },
    {
        match self.tx.take() {
            None => map_err(Error::TxClosed),
            Some(t) => {
                let mut t = t;
                let result = t.cancel();
                self.tx = Some(t);
                match result {
                    Ok(_) => Reply { code: SK_OK, message: None },
                    Err(e) => map_err(e),
                }
            },
        }
    }
}

/// Every error has a return code of its own, and none has that of a call that worked.
pub proof fn law_codes_tell_errors_apart(a: Error, b: Error)
    ensures
        code_of(a) != SK_OK,
        code_of(a) == code_of(b) <==> {
            ||| a is TxClosed && b is TxClosed
            ||| a is KeyWriteConflict && b is KeyWriteConflict
            ||| a is KeyReadConflict && b is KeyReadConflict
            ||| a is TxNotWritable && b is TxNotWritable
            ||| a is KeyAlreadyExists && b is KeyAlreadyExists
            ||| a is TxCommitNotPersisted && b is TxCommitNotPersisted
        },
{
}

/// A reply says that a call worked, or which error it was; never both.
pub proof fn law_replies_are_told_apart(r: Reply, e: Error)
    ensures
        is_ok_reply(r) ==> r.code == SK_OK && r.message is None && !is_error_reply(r, e),
        is_error_reply(r, e) ==> r.code == code_of(e) && r.message is Some && !is_ok_reply(r),
{
}

/// A write through a handle works on an open transaction that may write, with the value that it is
/// given, unless it may only create a key that has a value already. A deletion takes no value.
pub proof fn law_handle_writes_what_it_is_given(
    s: EngineState,
    tx: TxState,
    key: Seq<u8>,
    value: Seq<u8>,
)
    requires
        tx.write,
        !tx.done,
    ensures
        write_failure(s, tx, WriteOp::Assign, key, Some(value)) is None,
        write_failure(s, tx, WriteOp::Del, key, None) is None,
        s.read(tx, key) is None ==> write_failure(s, tx, WriteOp::Put, key, Some(value)) is None,
        s.read(tx, key) is Some ==> write_failure(s, tx, WriteOp::Put, key, Some(value)) == Some(
            Error::KeyAlreadyExists,
        ),
        written_value(WriteOp::Assign, Some(value)) == Some(value),
        written_value(WriteOp::Put, Some(value)) == Some(value),
        written_value(WriteOp::Del, Some(value)) is None,
{
}

/// A closed transaction takes no write through a handle, and neither does one that may only read.
pub proof fn law_handle_refuses_writes(
    s: EngineState,
    tx: TxState,
    op: WriteOp,
    key: Seq<u8>,
    value: Seq<u8>,
)
    ensures
        tx.done ==> write_failure(s, tx, op, key, Some(value)) == Some(Error::TxClosed),
        !tx.done && !tx.write ==> write_failure(s, tx, op, key, Some(value)) == Some(
            Error::TxNotWritable,
        ),
        op != WriteOp::Del ==> write_failure(s, tx, op, key, None) == Some(Error::TxNotWritable),
{
}

/// A setting of 0 leaves the default, and any other number is the setting. A switch is off only at
/// 0.
pub proof fn law_settings_are_taken(ms: u64, default_nanos: nat, v: i32)
    ensures
        ms > 0 ==> interval_or(ms, default_nanos) == ms * 1_000_000,
        interval_or(0, default_nanos) == default_nanos,
        switch_or_on(v) <==> v != 0,
{
}

/// Settings of persistence have a fault only where there is no base path, or a mode has a number
/// that stands for none.
pub proof fn law_faults_of_settings(o: SkPersistOptions)
    ensures
        o.fault() is None <==> o.base_path is Some && 0 <= o.snapshot_mode <= 1 && 0 <= o.aol_mode
            <= 2 && 0 <= o.fsync_mode <= 2 && 0 <= o.compression <= 1,
{
}

/// A buffer cannot be read only where its pointer is null and its length is not 0.
pub proof fn law_null_buffers_are_empty(null: bool, len: usize, v: &[u8])
    ensures
        sound(null, len) <==> !(null && len > 0),
        slice_view(Some(v)) == Some(v@),
        slice_view(None) is None,
{
}

/// What the numbers of the settings of a database stand for.
pub proof fn law_numbers_stand_for_settings(n: SkDbOptions, o: DatabaseOptions)
    requires
        n.means(o),
    ensures
        n.gc_interval_ms > 0 ==> duration_nanos(o.gc_interval) == n.gc_interval_ms * 1_000_000,
        n.gc_interval_ms == 0 ==> duration_nanos(o.gc_interval) == 500_000_000,
        n.cleanup_interval_ms > 0 ==> duration_nanos(o.cleanup_interval) == n.cleanup_interval_ms
            * 1_000_000,
        n.cleanup_interval_ms == 0 ==> duration_nanos(o.cleanup_interval) == 1_000_000_000,
        n.gc_full_scan_frequency > 0 ==> o.gc_full_scan_frequency == n.gc_full_scan_frequency,
        n.gc_full_scan_frequency == 0 ==> o.gc_full_scan_frequency == 20,
        0 < n.pool_size <= usize::MAX ==> o.pool_size == n.pool_size,
        n.pool_size == 0 ==> o.pool_size == 512,
        0 < n.reset_threshold <= usize::MAX ==> o.reset_threshold == n.reset_threshold,
        n.reset_threshold == 0 ==> o.reset_threshold == 100,
        o.enable_cleanup <==> n.enable_cleanup != 0,
        o.enable_gc <==> n.enable_gc != 0,
        duration_nanos(o.resync_interval) == 5_000_000_000,
{
}

/// What the numbers and the texts of the settings of persistence stand for.
pub proof fn law_numbers_stand_for_modes(n: SkPersistOptions, o: PersistenceOptions)
    requires
        n.fault() is None,
        n.means(o),
    ensures
        path_text(o.base_path) == Some(n.base_path->0@),
        o.snapshot_path is Some <==> n.snapshot_path is Some,
        o.snapshot_path is Some ==> path_text(o.snapshot_path->0) == Some(n.snapshot_path->0@),
        o.aol_path is Some <==> n.aol_path is Some,
        o.aol_path is Some ==> path_text(o.aol_path->0) == Some(n.aol_path->0@),
        n.snapshot_mode == 0 <==> o.snapshot_mode is Never,
        o.snapshot_mode matches SnapshotMode::Interval(d) ==> duration_nanos(d)
            == n.snapshot_interval_ms * 1_000_000,
        n.aol_mode == 0 <==> o.aol_mode is Never,
        n.aol_mode == 1 <==> o.aol_mode is SynchronousOnCommit,
        n.aol_mode == 2 <==> o.aol_mode is AsynchronousAfterCommit,
        n.fsync_mode == 0 <==> o.fsync_mode is Never,
        n.fsync_mode == 1 <==> o.fsync_mode is EveryAppend,
        o.fsync_mode matches FsyncMode::Interval(d) ==> n.fsync_mode == 2 && (
        n.fsync_interval_ms > 0 ==> duration_nanos(d) == n.fsync_interval_ms * 1_000_000) && (
        n.fsync_interval_ms == 0 ==> duration_nanos(d) == 1_000_000),
        n.compression == 0 <==> o.compression_mode is Uncompressed,
        n.compression == 1 <==> o.compression_mode is Lz4,
{
}

/// A failure has its code and its message.
pub proof fn law_failures_say_what_they_are(r: Reply, code: i32, message: Seq<char>, e: Error)
    ensures
        is_failure(r, code, message) ==> r.code == code && r.message is Some && r.message->0@
            == message,
        is_error_reply(r, e) ==> is_message_of(r.message->0@, e),
{
}

} // verus!
