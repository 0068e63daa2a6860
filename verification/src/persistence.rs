//! Persistence: when snapshots and log records are due, what goes into them, and what is read
//! back. Files are opened, written and renamed by the program around the library.

use crossbeam_deque::{Injector, Steal};
use std::path::PathBuf;
use std::sync::Arc;
use std::time::Duration;
use vstd::prelude::*;
use web_time::Instant;

use crate::compression::{packed, CompressedWriter, CompressionMode};
use crate::error::PersistenceError;
use crate::inner::{arc_clone, Inner};
use crate::model::EngineState;
use crate::options::{path_text, AolMode, FsyncMode, PersistenceOptions, SnapshotMode};
use crate::replay::{
    encode_store, encode_writes, file_view, holds_log, holds_snapshot, is_listing, joined,
    lemma_listing_unique, load, load_all, log_image, nonempty, records_of, replay_all, restore,
    snapshot_image, ListingModel, RecordsModel,
};
use crate::time::{
    duration_as_nanos, duration_nanos, instant_gap, instant_now, instant_since, monotonic_read,
};
use crate::writeset::{EntriesModel, WriteSet};

verus! {

/// How many commits go to the log at a time.
pub const BATCH_SIZE: usize = 100;

/// How many milliseconds to wait for commits when there are none.
pub const BATCH_WAIT_MS: u64 = 10;

/// The writes of a commit on their way to the log.
pub struct AsyncAppendOperation {
    /// The version of the writes.
    pub version: u64,
    /// The writes.
    pub writeset: Arc<WriteSet>,
}

impl View for AsyncAppendOperation {
    type V = (u64, EntriesModel);

    open spec fn view(&self) -> (u64, EntriesModel) {
        (self.version, self.writeset.list())
    }
}

/// `crossbeam_deque::Injector`: a first-in first-out queue. Opaque here; what a queue of commits
/// holds is `injector_view`.
#[verifier::external_type_specification]
#[verifier::external_body]
#[verifier::reject_recursive_types(T)]
pub struct ExInjector<T>(Injector<T>);

/// The commits in a queue, the one to leave next first.
pub uninterp spec fn injector_view(q: Injector<AsyncAppendOperation>) -> Seq<
    (u64, Seq<(Seq<u8>, Option<Seq<u8>>)>),
>;

/// What taking a commit out of a queue came to.
pub enum Stolen {
    /// There was none.
    Empty,
    /// The one at the front.
    Success(AsyncAppendOperation),
    /// It has to be tried again.
    Retry,
}

/// Calls `Injector::new`, which makes an empty queue.
#[verifier::external_body]
fn injector_new() -> (r: Injector<AsyncAppendOperation>)
    ensures
        injector_view(r).len() == 0,
{
    Injector::new()
}

/// Calls `Injector::push`, which puts a commit at the end.
#[verifier::external_body]
fn injector_push(q: &mut Injector<AsyncAppendOperation>, op: AsyncAppendOperation)
    ensures
        injector_view(*final(q)) == injector_view(*old(q)).push(op@),
{
    q.push(op)
}

/// Calls `Injector::steal`, which takes the commit at the front out, where there is one, and says
/// `Empty` of a queue that holds none, and of no other. Where there is one it may also leave the
/// queue alone and ask to be called again: it moves the front with an exchange that some machines
/// fail for no reason of the queue's. Which of the two happens is left open.
#[verifier::external_body]
fn injector_steal(q: &mut Injector<AsyncAppendOperation>) -> (r: Stolen)
    ensures
        r is Empty <==> injector_view(*old(q)).len() == 0,
        !(r is Success) ==> injector_view(*final(q)) == injector_view(*old(q)),
        r matches Stolen::Success(op) ==> op@ == injector_view(*old(q))[0] && injector_view(
            *final(q),
        ) == injector_view(*old(q)).skip(1),
{
    match q.steal() {
        Steal::Empty => Stolen::Empty,
        Steal::Success(op) => Stolen::Success(op),
        Steal::Retry => Stolen::Retry,
    }
}

/// Some system answers `absolute` when it is asked whether a path is absolute.
pub uninterp spec fn answers_absolute(p: PathBuf, absolute: bool) -> bool;

/// Some system makes `joined` of a path under a base path.
pub uninterp spec fn answers_joined(base: PathBuf, p: PathBuf, joined: PathBuf) -> bool;

/// Calls `Path::is_absolute`. Which paths are absolute depends on the system, so all that is said
/// of the answer is that it is one to this question.
#[verifier::external_body]
fn path_is_absolute(p: &PathBuf) -> (r: bool)
    ensures
        answers_absolute(*p, r),
{
    p.is_absolute()
}

/// Calls `Path::join`. How the two are joined depends on the system, so all that is said of the
/// path is that it is made of these two.
#[verifier::external_body]
fn path_join(base: &PathBuf, p: &PathBuf) -> (r: PathBuf)
    ensures
        answers_joined(*base, *p, r),
{
    base.join(p)
}

/// `r` is where a file goes that may be `given` a path and has a `usual` name: to that path where
/// it is absolute, to that path under the base path where it is not, and to the usual name under
/// the base path where no path is given.
pub open spec fn placed(
    base: PathBuf,
    given: Option<PathBuf>,
    usual: Seq<char>,
    r: PathBuf,
) -> bool {
    match given {
        Some(p) => (answers_absolute(p, true) && r == p) || (answers_absolute(p, false)
            && answers_joined(base, p, r)),
        None => exists|u: PathBuf|
            path_text(u) == Some(usual) && #[trigger] answers_joined(base, u, r),
    }
}

/// Where a file goes.
#[derive(Debug, Clone, Copy, PartialEq, Eq, Structural)]
pub enum PathChoice {
    /// To the path that was given.
    Given,
    /// To the path that was given, under the base path.
    UnderBase,
    /// To the usual name, under the base path.
    Usual,
}

/// Where a file goes: `absolute` says of the path that was given whether it is absolute.
pub fn path_choice(absolute: Option<bool>) -> (r: PathChoice)
    ensures
        r == (match absolute {
            Some(true) => PathChoice::Given,
            Some(false) => PathChoice::UnderBase,
            None => PathChoice::Usual,
        }),
{
    match absolute {
        Some(a) => if a {
            PathChoice::Given
        } else {
            PathChoice::UnderBase
        },
        None => PathChoice::Usual,
    }
}

/// The path of a file.
fn resolve_path(base: &PathBuf, given: Option<PathBuf>, usual: &str) -> (r: PathBuf)
    ensures
        placed(*base, given, usual@, r),
{
    let absolute = match &given {
        Some(p) => Some(path_is_absolute(p)),
        None => None,
    };
    match (path_choice(absolute), given) {
        (PathChoice::Given, Some(p)) => p,
        (PathChoice::UnderBase, Some(p)) => path_join(base, &p),
        _ => path_join(base, &crate::options::path_from_str(usual)),
    }
}

/// What is to be done with the writes of a commit.
pub enum AppendPlan {
    /// Nothing: there is no log.
    Skip,
    /// Nothing yet: they wait in the queue, and who empties it has to be woken.
    Queued,
    /// These bytes have to go to the log now.
    Write(Vec<u8>),
}

/// Whether the log has to be forced to disk.
#[derive(Debug, Clone, Copy, PartialEq, Eq, Structural)]
pub enum SyncStep {
    /// Not now.
    Skip,
    /// Now.
    Sync,
    /// Now, and then nothing is left to be forced.
    SyncAndReset,
}

/// Whether the log has to be forced to disk after an append, where this many nanoseconds have
/// passed since the last time.
pub open spec fn sync_step(mode: FsyncMode, elapsed: nat) -> SyncStep {
    match mode {
        FsyncMode::Never => SyncStep::Skip,
        FsyncMode::EveryAppend => SyncStep::Sync,
        FsyncMode::Interval(d) => if elapsed >= duration_nanos(d) {
            SyncStep::SyncAndReset
        } else {
            SyncStep::Skip
        },
    }
}

/// What comes next in filling a batch.
#[derive(Debug, Clone, Copy, PartialEq, Eq, Structural)]
pub enum BatchStep {
    /// Try again at once.
    Retry,
    /// Go on filling.
    More,
    /// Write the batch.
    Flush,
    /// Wait a while.
    Wait,
}

/// The writes of a batch, commit by commit.
pub open spec fn batch_records(batch: Seq<(u64, EntriesModel)>) -> RecordsModel
    decreases batch.len(),
{
    if batch.len() == 0 {
        Seq::empty()
    } else {
        records_of(batch[0].0, batch[0].1) + batch_records(batch.skip(1))
    }
}

/// What a batch holds.
pub open spec fn batch_view(batch: Seq<AsyncAppendOperation>) -> Seq<(u64, EntriesModel)> {
    Seq::new(batch.len(), |i: int| batch[i]@)
}

/// The bytes of two lists of writes are those of one after those of the other.
pub proof fn lemma_log_image_concat(a: RecordsModel, b: RecordsModel)
    ensures
        log_image(a + b) == joined(log_image(a), log_image(b)),
    decreases a.len(),
{
    if a.len() == 0 {
        assert(a + b =~= b);
        if log_image(b) is Some {
            assert(Seq::<u8>::empty() + log_image(b)->0 =~= log_image(b)->0);
        }
    } else {
        lemma_log_image_concat(a.skip(1), b);
        assert((a + b).skip(1) =~= a.skip(1) + b);
        assert((a + b)[0] == a[0]);
        let first = crate::codec::log_bytes(a[0].0, a[0].1, a[0].2);
        let x = log_image(a.skip(1));
        let y = log_image(b);
        if first is Some && x is Some && y is Some {
            assert(first->0 + (x->0 + y->0) =~= (first->0 + x->0) + y->0);
        }
    }
}

/// The bytes of a batch.
pub fn encode_batch(batch: &Vec<AsyncAppendOperation>) -> (r: Result<Vec<u8>, PersistenceError>)
    ensures
        match r {
            Ok(b) => log_image(batch_records(batch_view(batch@))) == Some(b@),
            Err(e) => log_image(batch_records(batch_view(batch@))) is None && e is Serialization,
        },
{
    let ghost all = batch_view(batch@);
    let mut out: Vec<u8> = Vec::new();
    let mut i: usize = 0;
    proof {
        assert(all.skip(0) =~= all);
        let whole = log_image(batch_records(all));
        if whole is Some {
            assert(Seq::<u8>::empty() + whole->0 =~= whole->0);
        }
        assert(out@ =~= Seq::empty());
    }
    while i < batch.len()
        invariant
            i <= batch@.len(),
            all == batch_view(batch@),
            log_image(batch_records(all)) == joined(
                Some(out@),
                log_image(batch_records(all.skip(i as int))),
            ),
        decreases batch@.len() - i,
    {
        let ghost before = out@;
        let ghost left = all.skip(i as int);
        proof {
            assert(left[0] == batch@[i as int]@);
            assert(left.skip(1) =~= all.skip(i + 1));
            lemma_log_image_concat(
                records_of(left[0].0, left[0].1),
                batch_records(left.skip(1)),
            );
        }
        let ghost here = log_image(records_of(left[0].0, left[0].1));
        let ghost later = log_image(batch_records(left.skip(1)));
        match encode_writes(batch[i].version, &batch[i].writeset, &mut out) {
            Ok(_) => {
                proof {
                    if later is Some {
                        assert(before + (here->0 + later->0) =~= (before + here->0) + later->0);
                    }
                }
            },
            Err(e) => {
                return Err(e);
            },
        }
        i += 1;
    }
    proof {
        assert(all.skip(i as int).len() == 0);
        assert(out@ + Seq::<u8>::empty() =~= out@);
    }
    Ok(out)
}

/// How far a log has come that is written behind the commits.
#[verifier::ext_equal]
pub struct AppenderState {
    /// The commits that were handed over since the start, in order.
    pub handed: Seq<(u64, EntriesModel)>,
    /// Those that wait in the queue.
    pub queue: Seq<(u64, EntriesModel)>,
    /// Those that are in the batch.
    pub batch: Seq<(u64, EntriesModel)>,
    /// What the log holds.
    pub log: Seq<u8>,
}

impl AppenderState {
    /// The start, with this log: nothing was handed over yet.
    pub open spec fn start(log: Seq<u8>) -> AppenderState {
        AppenderState { handed: Seq::empty(), queue: Seq::empty(), batch: Seq::empty(), log }
    }

    /// A commit was handed over, as `Persistence::append` does.
    pub open spec fn handed_over(self, commit: (u64, EntriesModel)) -> AppenderState {
        AppenderState {
            handed: self.handed.push(commit),
            queue: self.queue.push(commit),
            ..self
        }
    }

    /// A batch was filled further, as `Persistence::fill_batch` does.
    pub open spec fn filled_to(self, after: AppenderState) -> bool {
        &&& after.handed == self.handed
        &&& after.log == self.log
        &&& after.batch + after.queue == self.batch + self.queue
    }

    /// The bytes that `encode_batch` makes of the batch went to the end of the log, and the next
    /// batch is begun.
    pub open spec fn flushed(self) -> AppenderState {
        AppenderState {
            batch: Seq::empty(),
            log: self.log + log_image(batch_records(self.batch))->0,
            ..self
        }
    }

    /// One step of those who hand over and of the one who writes.
    pub open spec fn steps_to(self, after: AppenderState) -> bool {
        ||| exists|commit: (u64, EntriesModel)| after == #[trigger] self.handed_over(commit)
        ||| self.filled_to(after)
        ||| log_image(batch_records(self.batch)) is Some && after == self.flushed()
    }

    /// The log holds the records of the first `n` commits that were handed over behind what it
    /// held at the start, and the others are on their way, in order.
    pub open spec fn has_logged(self, start: Seq<u8>, n: int) -> bool {
        &&& 0 <= n <= self.handed.len()
        &&& self.handed.skip(n) == self.batch + self.queue
        &&& log_image(batch_records(self.handed.take(n))) matches Some(b)
        &&& self.log == start + b
    }
}

/// The records of two batches are those of one after those of the other.
pub proof fn lemma_batch_records_concat(a: Seq<(u64, EntriesModel)>, b: Seq<(u64, EntriesModel)>)
    ensures
        batch_records(a + b) == batch_records(a) + batch_records(b),
    decreases a.len(),
{
    if a.len() == 0 {
        assert(a + b =~= b);
        assert(batch_records(a) + batch_records(b) =~= batch_records(b));
    } else {
        lemma_batch_records_concat(a.skip(1), b);
        assert((a + b).skip(1) =~= a.skip(1) + b);
        let first = records_of(a[0].0, a[0].1);
        assert(first + (batch_records(a.skip(1)) + batch_records(b)) =~= (first + batch_records(
            a.skip(1),
        )) + batch_records(b));
    }
}

/// A step of the appender keeps the log in order.
proof fn lemma_appender_step(start: Seq<u8>, a: AppenderState, b: AppenderState, n: int) -> (m: int)
    requires
        a.has_logged(start, n),
        a.steps_to(b),
    ensures
        b.has_logged(start, m),
{
    if exists|commit: (u64, EntriesModel)| b == #[trigger] a.handed_over(commit) {
        let commit = choose|commit: (u64, EntriesModel)| b == #[trigger] a.handed_over(commit);
        assert(b.handed.take(n) =~= a.handed.take(n));
        assert(b.handed.skip(n) =~= a.handed.skip(n).push(commit));
        assert(b.batch + b.queue =~= (a.batch + a.queue).push(commit));
        n
    } else if a.filled_to(b) {
        n
    } else {
        let m = n + a.batch.len();
        let done = a.handed.take(n);
        let rest = a.handed.skip(n);
        assert(a.batch =~= rest.take(a.batch.len() as int));
        assert(a.handed.take(m) =~= done + a.batch);
        assert(a.handed.skip(m) =~= a.queue) by {
            assert(rest.skip(a.batch.len() as int) =~= a.queue);
        }
        lemma_batch_records_concat(done, a.batch);
        lemma_log_image_concat(batch_records(done), batch_records(a.batch));
        let x = log_image(batch_records(done))->0;
        let y = log_image(batch_records(a.batch))->0;
        assert((start + x) + y =~= start + (x + y));
        assert(b.batch + b.queue =~= a.queue);
        m
    }
}

/// A log that is written behind the commits keeps their order and loses none: at every point of a
/// run it holds the records of the first so many commits behind what it held at the start, and once
/// nothing is on its way, those of all of them, wherever the batches were split.
pub proof fn law_appender_keeps_order(start: Seq<u8>, run: Seq<AppenderState>)
    requires
        run.len() > 0,
        run[0] == AppenderState::start(start),
        forall|i: int| 0 <= i < run.len() - 1 ==> (#[trigger] run[i]).steps_to(run[i + 1]),
    ensures
        exists|n: int| run.last().has_logged(start, n),
        run.last().queue.len() == 0 && run.last().batch.len() == 0 ==> {
            &&& log_image(batch_records(run.last().handed)) matches Some(b)
            &&& run.last().log == start + b
        },
    decreases run.len(),
{
    let last = run.last();
    if run.len() == 1 {
        assert(last.handed.take(0) =~= Seq::empty());
        assert(last.handed.skip(0) =~= last.batch + last.queue);
        assert(start + Seq::<u8>::empty() =~= start);
        assert(last.has_logged(start, 0));
    } else {
        let before = run.drop_last();
        assert forall|i: int| 0 <= i < before.len() - 1 implies (#[trigger] before[i]).steps_to(
            before[i + 1],
        ) by {
            assert(run[i].steps_to(run[i + 1]));
        }
        law_appender_keeps_order(start, before);
        let n = choose|n: int| before.last().has_logged(start, n);
        let k = run.len() - 2;
        assert(run[k].steps_to(run[k + 1]));
        let m = lemma_appender_step(start, before.last(), last, n);
        assert(last.has_logged(start, m));
    }
    if last.queue.len() == 0 && last.batch.len() == 0 {
        let n = choose|n: int| last.has_logged(start, n);
        assert(last.handed.skip(n).len() == 0);
        assert(last.handed.take(n) =~= last.handed);
    }
}

/// The log file that counts: none where no log is asked for.
pub open spec fn log_in_use(mode: AolMode, log: Option<Seq<u8>>) -> Option<Seq<u8>> {
    if mode == AolMode::Never {
        None
    } else {
        log
    }
}

/// What is left of a log of which the first `position` bytes are covered by a snapshot.
pub open spec fn log_tail(log: Seq<u8>, position: u64) -> Seq<u8> {
    if log.len() > position {
        log.skip(position as int)
    } else {
        Seq::empty()
    }
}

/// The settings of persistence, and what waits for the disk.
pub struct Persistence {
    aol_path: PathBuf,
    snapshot_path: PathBuf,
    aol_mode: AolMode,
    fsync_mode: FsyncMode,
    snapshot_mode: SnapshotMode,
    compression_mode: CompressionMode,
    last_fsync: Instant,
    pending_syncs: u64,
    async_append_injector: Injector<AsyncAppendOperation>,
}

/// What is settled about persistence.
pub struct PersistenceSettings {
    pub aol_mode: AolMode,
    pub fsync_mode: FsyncMode,
    pub snapshot_mode: SnapshotMode,
    pub compression_mode: CompressionMode,
}

impl Persistence {
    /// What is settled.
    pub closed spec fn settings(&self) -> PersistenceSettings {
        PersistenceSettings {
            aol_mode: self.aol_mode,
            fsync_mode: self.fsync_mode,
            snapshot_mode: self.snapshot_mode,
            compression_mode: self.compression_mode,
        }
    }

    /// The path of the log.
    pub closed spec fn log_file(&self) -> PathBuf {
        self.aol_path
    }

    /// The path of the snapshot.
    pub closed spec fn snapshot_file(&self) -> PathBuf {
        self.snapshot_path
    }

    /// How many appends were not forced to disk yet.
    pub closed spec fn pending(&self) -> u64 {
        self.pending_syncs
    }

    /// When the log was last forced to disk after an append at intervals.
    pub closed spec fn last_sync(&self) -> Instant {
        self.last_fsync
    }

    /// The commits that wait for the log.
    pub closed spec fn queued(&self) -> Seq<(u64, EntriesModel)> {
        injector_view(self.async_append_injector)
    }

    /// Settings and paths are the same in both.
    pub open spec fn same_setup(&self, other: Persistence) -> bool {
        &&& self.settings() == other.settings()
        &&& self.log_file() == other.log_file()
        &&& self.snapshot_file() == other.snapshot_file()
    }

    /// Persistence as it is before anything was read or written.
    pub fn new_with_options(options: PersistenceOptions) -> (r: Self)
        ensures
            r.settings() == (PersistenceSettings {
                aol_mode: options.aol_mode,
                fsync_mode: options.fsync_mode,
                snapshot_mode: options.snapshot_mode,
                compression_mode: options.compression_mode,
            }),
            placed(options.base_path, options.aol_path, "aol.bin"@, r.log_file()),
            placed(options.base_path, options.snapshot_path, "snapshot.bin"@, r.snapshot_file()),
            r.pending() == 0,
            r.queued().len() == 0,
            monotonic_read(r.last_sync()),
    {
        let aol_path = resolve_path(&options.base_path, options.aol_path, "aol.bin");
        let snapshot_path = resolve_path(
            &options.base_path,
            options.snapshot_path,
            "snapshot.bin",
        );
        Persistence {
            aol_path,
            snapshot_path,
            aol_mode: options.aol_mode,
            fsync_mode: options.fsync_mode,
            snapshot_mode: options.snapshot_mode,
            compression_mode: options.compression_mode,
            last_fsync: instant_now(),
            pending_syncs: 0,
            async_append_injector: injector_new(),
        }
    }

    /// The path of the log.
    pub fn aol_path(&self) -> (r: &PathBuf)
        ensures
            *r == self.log_file(),
    {
        &self.aol_path
    }

    /// The path of the snapshot.
    pub fn snapshot_path(&self) -> (r: &PathBuf)
        ensures
            *r == self.snapshot_file(),
    {
        &self.snapshot_path
    }

    /// Whether there is a log.
    pub fn has_log(&self) -> (r: bool)
        ensures
            r == (self.settings().aol_mode != AolMode::Never),
    {
        self.aol_mode != AolMode::Never
    }

    /// Whether commits wait for the log.
    pub fn logs_synchronously(&self) -> (r: bool)
        ensures
            r == (self.settings().aol_mode == AolMode::SynchronousOnCommit),
    {
        self.aol_mode == AolMode::SynchronousOnCommit
    }

    /// How often a snapshot is to be taken in the background.
    pub fn snapshot_worker_interval(&self) -> (r: Option<Duration>)
        ensures
            r == (match self.settings().snapshot_mode {
                SnapshotMode::Never => None::<Duration>,
                SnapshotMode::Interval(d) => Some(d),
            }),
    {
        match self.snapshot_mode {
            SnapshotMode::Never => None,
            SnapshotMode::Interval(interval) => Some(interval),
        }
    }

    /// Whether the queue of commits is to be emptied in the background.
    pub fn runs_appender(&self) -> (r: bool)
        ensures
            r == (self.settings().aol_mode == AolMode::AsynchronousAfterCommit),
    {
        self.aol_mode == AolMode::AsynchronousAfterCommit
    }

    /// How often the log is to be forced to disk in the background.
    pub fn fsync_worker_interval(&self) -> (r: Option<Duration>)
        ensures
            r == (match (self.settings().aol_mode, self.settings().fsync_mode) {
                (AolMode::Never, _) => None::<Duration>,
                (_, FsyncMode::Interval(d)) => Some(d),
                _ => None,
            }),
    {
        if self.aol_mode == AolMode::Never {
            return None;
        }
        match self.fsync_mode {
            FsyncMode::Interval(duration) => Some(duration),
            _ => None,
        }
    }

    /// The bytes of a snapshot file: every key whose chain is not empty, with its chain, in the
    /// order of the keys, packed as is settled.
    pub fn snapshot(&self, inner: &Inner) -> (r: Result<Vec<u8>, PersistenceError>)
        ensures
            forall|list: ListingModel| #[trigger]
                is_listing(list, inner@.store) ==> match snapshot_image(nonempty(list)) {
                    None => r matches Err(e) && e is Serialization,
                    Some(plain) => match r {
                        Ok(b) => packed(plain, self.settings().compression_mode) == Some(b@),
                        Err(e) => packed(plain, self.settings().compression_mode) is None
                            && e is Io,
                    },
                },
            exists|list: ListingModel| is_listing(list, inner@.store),
            r is Ok && self.settings().compression_mode == CompressionMode::Lz4
                ==> crate::compression::detected(r->Ok_0@) == CompressionMode::Lz4,
    {
        let mut writer = CompressedWriter::new(self.compression_mode);
        let encoded = encode_store(inner, &mut writer);
        let ghost list = choose|list: ListingModel| #[trigger]
            is_listing(list, inner@.store) && match encoded {
                Ok(_) => snapshot_image(nonempty(list)) is Some && writer.written()
                    == Seq::<u8>::empty() + snapshot_image(nonempty(list))->0,
                Err(e) => snapshot_image(nonempty(list)) is None && e is Serialization,
            };
        proof {
            assert forall|other: ListingModel| #[trigger]
                is_listing(other, inner@.store) implies other == list by {
                lemma_listing_unique(other, list, inner@.store);
            }
        }
        match encoded {
            Ok(_) => {
                proof {
                    let plain = snapshot_image(nonempty(list))->0;
                    assert(Seq::<u8>::empty() + plain =~= plain);
                }
                match writer.finish() {
                    Ok(b) => Ok(b),
                    Err(e) => Err(PersistenceError::Io(e)),
                }
            },
            Err(e) => Err(e),
        }
    }

    /// Reads a snapshot file and a log file into the store; either may be missing or empty. Where
    /// no log is asked for, a log file has no effect.
    pub fn load(&self, inner: &mut Inner, snapshot: Option<&[u8]>, log: Option<&[u8]>) -> (r: Result<
        (),
        PersistenceError,
    >)
        requires
            old(inner).wf(),
        ensures
            final(inner).wf(),
            final(inner).same_setup(*old(inner)),
            final(inner)@ == (EngineState {
                store: restore(
                    old(inner)@.store,
                    file_view(snapshot),
                    log_in_use(self.settings().aol_mode, file_view(log)),
                ).store,
                ..old(inner)@
            }),
            r is Ok == restore(
                old(inner)@.store,
                file_view(snapshot),
                log_in_use(self.settings().aol_mode, file_view(log)),
            ).ok,
            r matches Err(e) ==> e is Deserialization,
            self.settings().aol_mode != AolMode::Never ==> forall|
                list: ListingModel,
                mode: CompressionMode,
                records: RecordsModel,
            |
                #[trigger] holds_snapshot(file_view(snapshot), list, mode) && #[trigger] holds_log(
                    file_view(log),
                    records,
                ) ==> r is Ok && final(inner)@.store == replay_all(
                    load_all(old(inner)@.store, list),
                    records,
                ),
            self.settings().aol_mode == AolMode::Never ==> forall|
                list: ListingModel,
                mode: CompressionMode,
            | #[trigger]
                holds_snapshot(file_view(snapshot), list, mode) ==> r is Ok && final(inner)@.store
                    == load_all(old(inner)@.store, list),
            forall|list: ListingModel, mode: CompressionMode, records: RecordsModel|
                #[trigger] holds_snapshot(file_view(snapshot), list, mode) && #[trigger] holds_log(
                    log_in_use(self.settings().aol_mode, file_view(log)),
                    records,
                ) ==> r is Ok && final(inner)@.store == replay_all(
                    load_all(old(inner)@.store, list),
                    records,
                ),
    {
        if self.aol_mode == AolMode::Never {
            assert(holds_log(file_view(None), Seq::empty()));
            load(inner, snapshot, None)
        } else {
            load(inner, snapshot, log)
        }
    }

    /// What is left of the log after a snapshot that began when the log had `position` bytes.
    pub fn truncate(&mut self, log: &[u8], position: u64) -> (r: Vec<u8>)
        ensures
            r@ == log_tail(log@, position),
            position <= log@.len() ==> r@ == log@.skip(position as int),
            position >= log@.len() ==> r@.len() == 0,
            final(self).same_setup(*old(self)),
            final(self).last_sync() == old(self).last_sync(),
            final(self).queued() == old(self).queued(),
            final(self).pending() == (if position == 0 {
                0
            } else {
                old(self).pending()
            }),
    {
        let mut kept: Vec<u8> = Vec::new();
        let len: usize = log.len();
        if len as u64 > position {
            kept.extend_from_slice(vstd::slice::slice_subrange(log, position as usize, len));
            assert(kept@ =~= log@.skip(position as int));
        }
        if position == 0 {
            self.pending_syncs = 0;
        }
        assert(position == log@.len() ==> kept@ =~= log@.skip(position as int));
        kept
    }

    /// What is to be done with the writes of a commit.
    pub fn append(&mut self, version: u64, writeset: &Arc<WriteSet>) -> (r: Result<
        AppendPlan,
        PersistenceError,
    >)
        ensures
            final(self).same_setup(*old(self)),
            final(self).pending() == old(self).pending(),
            final(self).last_sync() == old(self).last_sync(),
            match old(self).settings().aol_mode {
                AolMode::Never => {
                    &&& r matches Ok(AppendPlan::Skip)
                    &&& final(self).queued() == old(self).queued()
                },
                AolMode::AsynchronousAfterCommit => {
                    &&& r matches Ok(AppendPlan::Queued)
                    &&& final(self).queued() == old(self).queued().push((version, writeset.list()))
                },
                AolMode::SynchronousOnCommit => final(self).queued() == old(self).queued()
                    && match log_image(records_of(version, writeset.list())) {
                    Some(b) => r matches Ok(AppendPlan::Write(v)) && v@ == b,
                    None => r matches Err(e) && e is Serialization,
                },
            },
    {
        match self.aol_mode {
            AolMode::Never => Ok(AppendPlan::Skip),
            AolMode::AsynchronousAfterCommit => {
                injector_push(
                    &mut self.async_append_injector,
                    AsyncAppendOperation { version, writeset: arc_clone(writeset) },
                );
                Ok(AppendPlan::Queued)
            },
            AolMode::SynchronousOnCommit => {
                let mut out: Vec<u8> = Vec::new();
                match encode_writes(version, writeset, &mut out) {
                    Ok(_) => {
                        proof {
                            let b = log_image(records_of(version, writeset.list()))->0;
                            assert(Seq::<u8>::empty() + b =~= b);
                        }
                        Ok(AppendPlan::Write(out))
                    },
                    Err(e) => Err(e),
                }
            },
        }
    }

    /// Whether the log has to be forced to disk after an append, where this much time has passed
    /// since the last time.
    pub fn after_append_at(&mut self, elapsed: &Duration) -> (r: SyncStep)
        ensures
            final(self).same_setup(*old(self)),
            final(self).queued() == old(self).queued(),
            final(self).last_sync() == old(self).last_sync(),
            r == sync_step(old(self).settings().fsync_mode, duration_nanos(*elapsed)),
            final(self).pending() == (if r == SyncStep::Skip {
                vstd::wrapping::u64_specs::wrapping_add(old(self).pending(), 1)
            } else {
                old(self).pending()
            }),
    {
        let step = match self.fsync_mode {
            FsyncMode::Never => SyncStep::Skip,
            FsyncMode::EveryAppend => SyncStep::Sync,
            FsyncMode::Interval(duration) => if duration_as_nanos(elapsed) >= duration_as_nanos(
                &duration,
            ) {
                SyncStep::SyncAndReset
            } else {
                SyncStep::Skip
            },
        };
        if step == SyncStep::Skip {
            self.pending_syncs = self.pending_syncs.wrapping_add(1);
        }
        step
    }

    /// Whether the log has to be forced to disk after an append, now.
    pub fn after_append(&mut self) -> (r: SyncStep)
        ensures
            final(self).same_setup(*old(self)),
            final(self).queued() == old(self).queued(),
            exists|now: Instant|
                monotonic_read(now) && r == sync_step(
                    old(self).settings().fsync_mode,
                    #[trigger] instant_gap(now, old(self).last_sync()),
                ) && final(self).last_sync() == (if r == SyncStep::SyncAndReset {
                    now
                } else {
                    old(self).last_sync()
                }),
            final(self).pending() == (if r == SyncStep::Skip {
                vstd::wrapping::u64_specs::wrapping_add(old(self).pending(), 1)
            } else {
                old(self).pending()
            }),
    {
        let now = instant_now();
        let elapsed = instant_since(&now, &self.last_fsync);
        let step = self.after_append_at(&elapsed);
        if step == SyncStep::SyncAndReset {
            self.last_fsync = now;
        }
        step
    }

    /// The log was forced to disk: nothing is left to be forced.
    pub fn synced(&mut self)
        ensures
            final(self).same_setup(*old(self)),
            final(self).queued() == old(self).queued(),
            final(self).last_sync() == old(self).last_sync(),
            final(self).pending() == 0,
    {
        self.pending_syncs = 0;
    }

    /// Whether something is left to be forced to disk.
    pub fn needs_sync(&self) -> (r: bool)
        ensures
            r == (self.pending() > 0),
    {
        self.pending_syncs > 0
    }

    /// Whether the log has to be forced to disk when everything is closed.
    pub fn sync_on_close(&self) -> (r: bool)
        ensures
            r == (self.settings().aol_mode != AolMode::Never && self.pending() > 0),
    {
        self.aol_mode != AolMode::Never && self.pending_syncs > 0
    }

    /// Moves the commit at the front of the queue to the end of a batch, and says what comes next:
    /// a full batch is written. Where the queue holds none, a batch that has begun is written and
    /// an empty one waits. Where it holds one, it may also have to be tried again, with nothing
    /// moved.
    pub fn fill_batch(&mut self, batch: &mut Vec<AsyncAppendOperation>) -> (r: BatchStep)
        requires
            old(batch)@.len() < BATCH_SIZE,
        ensures
            final(self).same_setup(*old(self)),
            final(self).pending() == old(self).pending(),
            final(self).last_sync() == old(self).last_sync(),
            old(self).queued().len() == 0 ==> r == (if old(batch)@.len() > 0 {
                BatchStep::Flush
            } else {
                BatchStep::Wait
            }),
            old(self).queued().len() > 0 ==> r == BatchStep::Retry || r == (if old(batch)@.len() + 1
                >= BATCH_SIZE {
                BatchStep::Flush
            } else {
                BatchStep::More
            }),
            if old(self).queued().len() == 0 || r == BatchStep::Retry {
                final(self).queued() == old(self).queued() && final(batch)@ == old(batch)@
            } else {
                &&& final(self).queued() == old(self).queued().skip(1)
                &&& final(batch)@.len() == old(batch)@.len() + 1
                &&& final(batch)@.drop_last() == old(batch)@
                &&& final(batch)@.last()@ == old(self).queued()[0]
            },
            batch_view(final(batch)@) + final(self).queued() == batch_view(old(batch)@) + old(
                self,
            ).queued(),
    {
        let ghost q = self.queued();
        let ghost filled = batch_view(batch@);
        let stolen = injector_steal(&mut self.async_append_injector);
        let r = take_into(batch, stolen);
        proof {
            if stolen is Success {
                assert(batch@.drop_last() =~= old(batch)@);
                assert(batch_view(batch@) =~= filled.push(q[0]));
                assert(batch_view(batch@) + q.skip(1) =~= filled + q);
            }
        }
        r
    }
}

/// Adds what was taken out of the queue to a batch, and says what comes next: a full batch is
/// written, and so is one that cannot be filled; an empty one waits.
pub fn take_into(batch: &mut Vec<AsyncAppendOperation>, stolen: Stolen) -> (r: BatchStep)
    requires
        old(batch)@.len() < BATCH_SIZE,
    ensures
        match stolen {
            Stolen::Retry => r == BatchStep::Retry && final(batch)@ == old(batch)@,
            Stolen::Success(op) => final(batch)@ == old(batch)@.push(op) && r == (if old(
                batch,
            )@.len() + 1 >= BATCH_SIZE {
                BatchStep::Flush
            } else {
                BatchStep::More
            }),
            Stolen::Empty => final(batch)@ == old(batch)@ && r == (if old(batch)@.len() > 0 {
                BatchStep::Flush
            } else {
                BatchStep::Wait
            }),
        },
{
    match stolen {
        Stolen::Retry => BatchStep::Retry,
        Stolen::Success(op) => {
            batch.push(op);
            if batch.len() >= BATCH_SIZE {
                BatchStep::Flush
            } else {
                BatchStep::More
            }
        },
        Stolen::Empty => {
            if batch.len() > 0 {
                BatchStep::Flush
            } else {
                BatchStep::Wait
            }
        },
    }
}

/// A file goes to the path that it is given where that is absolute, and else under the base path,
/// by that path or by its usual name.
pub proof fn law_files_go_where_they_are_told(
    base: PathBuf,
    given: PathBuf,
    usual: Seq<char>,
    r: PathBuf,
)
    ensures
        placed(base, Some(given), usual, r) && !answers_absolute(given, false) ==> r == given,
        placed(base, Some(given), usual, r) && !answers_absolute(given, true) ==> answers_joined(
            base,
            given,
            r,
        ),
        placed(base, None, usual, r) ==> exists|u: PathBuf|
            path_text(u) == Some(usual) && #[trigger] answers_joined(base, u, r),
{
}

/// Nothing is missing where two are set up alike.
pub proof fn law_set_up_alike_is_the_same(a: Persistence, b: Persistence)
    requires
        a.same_setup(b),
    ensures
        a.settings() == b.settings(),
        a.log_file() == b.log_file(),
        a.snapshot_file() == b.snapshot_file(),
{
}

} // verus!
