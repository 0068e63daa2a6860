//! Settings of a database and of its persistence.

use std::path::PathBuf;
use std::time::Duration;
use vstd::prelude::*;

use crate::compression::CompressionMode;
use crate::time::{duration_from_millis, duration_from_secs, duration_nanos};

verus! {

/// How many finished transactions are kept for reuse unless a database is told otherwise.
pub const DEFAULT_POOL_SIZE: usize = 512;

/// How many rounds of collection over lately written keys come before one over all keys.
pub const DEFAULT_GC_FULL_SCAN_FREQUENCY: u64 = 20;

/// Up to how many writes a finished transaction may hold for its memory to be kept.
pub const DEFAULT_RESET_THRESHOLD: usize = 100;

/// Settings of a database.
#[derive(Debug)]
pub struct DatabaseOptions {
    /// How many finished transactions are kept for reuse; more are dropped.
    pub pool_size: usize,
    /// How often the clock is set anew.
    pub resync_interval: Duration,
    /// Whether the commit queue is cleaned in the background. It can be cleaned by hand either
    /// way.
    pub enable_cleanup: bool,
    /// How often the commit queue is cleaned in the background.
    pub cleanup_interval: Duration,
    /// Whether old versions are collected in the background.
    pub enable_gc: bool,
    /// How often old versions are collected in the background.
    pub gc_interval: Duration,
    /// One in this many rounds of collection looks at all keys.
    pub gc_full_scan_frequency: u64,
    /// Up to how many writes a finished transaction may hold for its memory to be kept.
    pub reset_threshold: usize,
}

impl Clone for DatabaseOptions {
    fn clone(&self) -> (r: Self)
        ensures
            r == *self,
    {
        DatabaseOptions {
            pool_size: self.pool_size,
            resync_interval: self.resync_interval,
            enable_cleanup: self.enable_cleanup,
            cleanup_interval: self.cleanup_interval,
            enable_gc: self.enable_gc,
            gc_interval: self.gc_interval,
            gc_full_scan_frequency: self.gc_full_scan_frequency,
            reset_threshold: self.reset_threshold,
        }
    }
}

impl DatabaseOptions {
    /// Whether these are the settings that a database has unless it is told otherwise.
    pub open spec fn is_default(&self) -> bool {
        &&& self.pool_size == DEFAULT_POOL_SIZE
        &&& duration_nanos(self.resync_interval) == 5_000_000_000
        &&& self.enable_cleanup
        &&& duration_nanos(self.cleanup_interval) == 1_000_000_000
        &&& self.enable_gc
        &&& duration_nanos(self.gc_interval) == 500_000_000
        &&& self.gc_full_scan_frequency == DEFAULT_GC_FULL_SCAN_FREQUENCY
        &&& self.reset_threshold == DEFAULT_RESET_THRESHOLD
    }
}

impl Default for DatabaseOptions {
    fn default() -> (r: Self)
        ensures
            r.is_default(),
    {
        DatabaseOptions {
            pool_size: DEFAULT_POOL_SIZE,
            resync_interval: duration_from_secs(5),
            enable_cleanup: true,
            cleanup_interval: duration_from_secs(1),
            enable_gc: true,
            gc_interval: duration_from_millis(500),
            gc_full_scan_frequency: DEFAULT_GC_FULL_SCAN_FREQUENCY,
            reset_threshold: DEFAULT_RESET_THRESHOLD,
        }
    }
}

impl DatabaseOptions {
    /// The default settings.
    pub fn new() -> (r: Self)
        ensures
            r.is_default(),
    {
        DatabaseOptions::default()
    }

    /// Sets how often old versions are collected.
    pub fn with_gc_interval(self, interval: Duration) -> (r: Self)
        ensures
            r == (DatabaseOptions { gc_interval: interval, ..self }),
    {
        let mut r = self;
        r.gc_interval = interval;
        r
    }

    /// Sets how often the commit queue is cleaned.
    pub fn with_cleanup_interval(self, interval: Duration) -> (r: Self)
        ensures
            r == (DatabaseOptions { cleanup_interval: interval, ..self }),
    {
        let mut r = self;
        r.cleanup_interval = interval;
        r
    }
}

/// When the writes of a commit go to the log.
#[derive(Debug, Clone, Copy, PartialEq, Eq, Structural)]
pub enum AolMode {
    /// Never: there is no log.
    Never,
    /// While the transaction commits.
    SynchronousOnCommit,
    /// Later, many commits at a time.
    AsynchronousAfterCommit,
}

impl Default for AolMode {
    fn default() -> (r: Self)
        ensures
            r == AolMode::Never,
    {
        AolMode::Never
    }
}

/// When the log is forced to disk.
#[derive(Debug, Clone, Copy, PartialEq, Eq)]
pub enum FsyncMode {
    /// When the operating system sees fit.
    Never,
    /// After every append.
    EveryAppend,
    /// When this much time has passed since the last time.
    Interval(Duration),
}

impl Default for FsyncMode {
    fn default() -> (r: Self)
        ensures
            r == FsyncMode::Never,
    {
        FsyncMode::Never
    }
}

/// When snapshots are taken.
#[derive(Debug, Clone, Copy, PartialEq, Eq)]
pub enum SnapshotMode {
    /// Only by hand.
    Never,
    /// In the background, this often.
    Interval(Duration),
}

impl Default for SnapshotMode {
    fn default() -> (r: Self)
        ensures
            r == SnapshotMode::Never,
    {
        SnapshotMode::Never
    }
}

/// `std::path::PathBuf`: a path in the file system. Opaque here; what `Path::to_str` gives of it
/// is `path_text`.
#[verifier::external_type_specification]
#[verifier::external_body]
pub struct ExPathBuf(PathBuf);

/// A path as text, where it can be written as text.
pub uninterp spec fn path_text(p: PathBuf) -> Option<Seq<char>>;

/// Calls `PathBuf::from` on a text, which makes a path that reads as the text.
#[verifier::external_body]
pub(crate) fn path_from_str(s: &str) -> (r: PathBuf)
    ensures
        path_text(r) == Some(s@),
{
    PathBuf::from(s)
}

/// Calls `Path::to_string_lossy`, which gives a path as text. Where it cannot be written as text,
/// how it is given is left open.
#[verifier::external_body]
pub(crate) fn path_to_text(p: &PathBuf) -> (r: String)
    ensures
        path_text(*p) matches Some(t) ==> r@ == t,
{
    p.to_string_lossy().into_owned()
}

/// Calls `PathBuf::clone`, which makes a second path that is the same.
#[verifier::external_body]
fn path_clone(p: &PathBuf) -> (r: PathBuf)
    ensures
        r == *p,
{
    p.clone()
}

/// Settings of persistence.
#[derive(Debug)]
pub struct PersistenceOptions {
    /// The directory that files go to unless they are given an absolute path.
    pub base_path: PathBuf,
    /// When snapshots are taken.
    pub snapshot_mode: SnapshotMode,
    /// Where the snapshot goes: `snapshot.bin` under the base path where this is `None`, under
    /// the base path where it is relative.
    pub snapshot_path: Option<PathBuf>,
    /// When the writes of a commit go to the log.
    pub aol_mode: AolMode,
    /// Where the log goes: `aol.bin` under the base path where this is `None`, under the base
    /// path where it is relative.
    pub aol_path: Option<PathBuf>,
    /// When the log is forced to disk.
    pub fsync_mode: FsyncMode,
    /// Whether snapshots are compressed.
    pub compression_mode: CompressionMode,
}

impl Clone for PersistenceOptions {
    fn clone(&self) -> (r: Self)
        ensures
            r == *self,
    {
        PersistenceOptions {
            base_path: path_clone(&self.base_path),
            snapshot_mode: self.snapshot_mode,
            snapshot_path: match &self.snapshot_path {
                Some(p) => Some(path_clone(p)),
                None => None,
            },
            aol_mode: self.aol_mode,
            aol_path: match &self.aol_path {
                Some(p) => Some(path_clone(p)),
                None => None,
            },
            fsync_mode: self.fsync_mode,
            compression_mode: self.compression_mode,
        }
    }
}

impl PersistenceOptions {
    /// Whether everything but the base path is as it is unless it is told otherwise.
    pub open spec fn is_default_but_base(&self) -> bool {
        &&& self.snapshot_mode == SnapshotMode::Never
        &&& self.snapshot_path is None
        &&& self.aol_mode == AolMode::Never
        &&& self.aol_path is None
        &&& self.fsync_mode == FsyncMode::Never
        &&& self.compression_mode == CompressionMode::Uncompressed
    }
}

impl Default for PersistenceOptions {
    fn default() -> (r: Self)
        ensures
            path_text(r.base_path) == Some("./data"@),
            r.is_default_but_base(),
    {
        PersistenceOptions {
            base_path: path_from_str("./data"),
            snapshot_mode: SnapshotMode::Never,
            snapshot_path: None,
            aol_mode: AolMode::Never,
            aol_path: None,
            fsync_mode: FsyncMode::Never,
            compression_mode: CompressionMode::Uncompressed,
        }
    }
}

impl PersistenceOptions {
    /// Default settings under a base path.
    pub fn new<P: Into<PathBuf>>(base_path: P) -> (r: Self)
        ensures
            call_ensures(P::into, (base_path,), r.base_path),
            r.is_default_but_base(),
    {
        let mut r = PersistenceOptions::default();
        r.base_path = base_path.into();
        r
    }

    /// Sets the base path.
    pub fn with_base_path<P: Into<PathBuf>>(self, base_path: P) -> (r: Self)
        ensures
            call_ensures(P::into, (base_path,), r.base_path),
            r == (PersistenceOptions { base_path: r.base_path, ..self }),
    {
        let mut r = self;
        r.base_path = base_path.into();
        r
    }

    /// Sets when snapshots are taken.
    pub fn with_snapshot_mode(self, snapshot_mode: SnapshotMode) -> (r: Self)
        ensures
            r == (PersistenceOptions { snapshot_mode, ..self }),
    {
        let mut r = self;
        r.snapshot_mode = snapshot_mode;
        r
    }

    /// Sets where the snapshot goes.
    pub fn with_snapshot_path(self, snapshot_path: Option<PathBuf>) -> (r: Self)
        ensures
            r == (PersistenceOptions { snapshot_path, ..self }),
    {
        let mut r = self;
        r.snapshot_path = snapshot_path;
        r
    }

    /// Sets when the writes of a commit go to the log.
    pub fn with_aol_mode(self, aol_mode: AolMode) -> (r: Self)
        ensures
            r == (PersistenceOptions { aol_mode, ..self }),
    {
        let mut r = self;
        r.aol_mode = aol_mode;
        r
    }

    /// Sets when the log is forced to disk.
    pub fn with_fsync_mode(self, fsync_mode: FsyncMode) -> (r: Self)
        ensures
            r == (PersistenceOptions { fsync_mode, ..self }),
    {
        let mut r = self;
        r.fsync_mode = fsync_mode;
        r
    }

    /// Sets where the log goes.
    pub fn with_aol_path(self, aol_path: Option<PathBuf>) -> (r: Self)
        ensures
            r == (PersistenceOptions { aol_path, ..self }),
    {
        let mut r = self;
        r.aol_path = aol_path;
        r
    }

    /// Sets whether snapshots are compressed.
    pub fn with_compression_mode(self, compression_mode: CompressionMode) -> (r: Self)
        ensures
            r == (PersistenceOptions { compression_mode, ..self }),
    {
        let mut r = self;
        r.compression_mode = compression_mode;
        r
    }

    /// Snapshots alone: what was written since the last one may be lost.
    pub fn with_pure_snapshot(self, snapshot_interval: Duration) -> (r: Self)
        ensures
            r == (PersistenceOptions {
                snapshot_mode: SnapshotMode::Interval(snapshot_interval),
                aol_mode: AolMode::Never,
                fsync_mode: FsyncMode::Never,
                ..self
            }),
    {
        let mut r = self;
        r.snapshot_mode = SnapshotMode::Interval(snapshot_interval);
        r.aol_mode = AolMode::Never;
        r.fsync_mode = FsyncMode::Never;
        r
    }

    /// Snapshots with a log that is written behind commits and forced to disk every 100 ms.
    pub fn with_async_aol(self, snapshot_interval: Duration) -> (r: Self)
        ensures
            r == (PersistenceOptions {
                snapshot_mode: SnapshotMode::Interval(snapshot_interval),
                aol_mode: AolMode::AsynchronousAfterCommit,
                fsync_mode: r.fsync_mode,
                ..self
            }),
            r.fsync_mode matches FsyncMode::Interval(d) && duration_nanos(d) == 100_000_000,
    {
        let mut r = self;
        r.snapshot_mode = SnapshotMode::Interval(snapshot_interval);
        r.aol_mode = AolMode::AsynchronousAfterCommit;
        r.fsync_mode = FsyncMode::Interval(duration_from_millis(100));
        r
    }

    /// Snapshots with a log that is written and forced to disk by every commit.
    pub fn with_sync_aol(self, snapshot_interval: Duration) -> (r: Self)
        ensures
            r == (PersistenceOptions {
                snapshot_mode: SnapshotMode::Interval(snapshot_interval),
                aol_mode: AolMode::SynchronousOnCommit,
                fsync_mode: FsyncMode::EveryAppend,
                ..self
            }),
    {
        let mut r = self;
        r.snapshot_mode = SnapshotMode::Interval(snapshot_interval);
        r.aol_mode = AolMode::SynchronousOnCommit;
        r.fsync_mode = FsyncMode::EveryAppend;
        r
    }
}

/// The settings that a database has unless it is told otherwise.
pub proof fn law_default_settings(o: DatabaseOptions, p: PersistenceOptions)
    ensures
        o.is_default() ==> o.pool_size == 512 && o.gc_full_scan_frequency == 20 && o.reset_threshold
            == 100 && o.enable_cleanup && o.enable_gc && duration_nanos(o.resync_interval)
            == 5_000_000_000 && duration_nanos(o.cleanup_interval) == 1_000_000_000
            && duration_nanos(o.gc_interval) == 500_000_000,
        p.is_default_but_base() ==> p.snapshot_mode is Never && p.aol_mode is Never
            && p.fsync_mode is Never && p.snapshot_path is None && p.aol_path is None
            && p.compression_mode is Uncompressed,
{
}

} // verus!

