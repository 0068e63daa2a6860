use bytes::Bytes;
use std::sync::Arc;
use std::time::Duration;
use stupid_kv::compression::{detect, read_packed, CompressedWriter};
use stupid_kv::persistence::{
    encode_batch, path_choice, take_into, AppendPlan, AsyncAppendOperation, BatchStep, PathChoice,
    Stolen, SyncStep, BATCH_SIZE, BATCH_WAIT_MS,
};
use stupid_kv::tx::PendingCommit;
use stupid_kv::writeset::WriteSet;
use stupid_kv::{
    AolMode, CommitStep, CompressionMode, Database, DatabaseOptions, Error, FsyncMode, Persistence,
    PersistenceError, PersistenceOptions, SnapshotMode, Transaction,
};

fn options() -> PersistenceOptions {
    PersistenceOptions::new("base")
}

fn open(popts: PersistenceOptions, snapshot: Option<&[u8]>, log: Option<&[u8]>) -> Database {
    Database::new_with_persistence(DatabaseOptions::default(), popts, snapshot, log).unwrap()
}

/// Commits up to the point where the log has to be written.
fn wait_for_log(tx: &mut Transaction, db: &mut Database) -> PendingCommit {
    let now = db.current_time_ns();
    match tx.commit_start_at(db, now).unwrap() {
        CommitStep::Log(pending, _) => pending,
        CommitStep::Done => panic!("there is a log"),
    }
}

/// Commits these writes and returns what has to go to the log.
fn write(db: &mut Database, list: &[(&str, Option<&str>)]) -> Vec<u8> {
    let mut tx = db.transaction(true);
    for (k, v) in list {
        match v {
            Some(v) => tx.set(*k, *v).unwrap(),
            None => tx.del(*k).unwrap(),
        }
    }
    let now = db.current_time_ns();
    let bytes = match tx.commit_start_at(db, now).unwrap() {
        CommitStep::Done => Vec::new(),
        CommitStep::Log(pending, bytes) => {
            tx.commit_finish(db, pending, Ok(())).unwrap();
            bytes
        }
    };
    db.release(tx);
    bytes
}

fn read(db: &mut Database, key: &str) -> Option<Bytes> {
    let mut tx = db.transaction(false);
    let r = tx.get(db, key).unwrap();
    db.release(tx);
    r
}

fn some(s: &'static str) -> Option<Bytes> {
    Some(Bytes::from(s))
}

fn set_of(list: &[(&str, Option<&str>)]) -> Arc<WriteSet> {
    let mut w = WriteSet::new();
    for (k, v) in list {
        w.insert(
            Bytes::copy_from_slice(k.as_bytes()),
            v.map(|v| Bytes::copy_from_slice(v.as_bytes())),
        );
    }
    Arc::new(w)
}

#[test]
fn a_snapshot_restores_every_read() {
    let mut db = open(options(), None, None);
    write(&mut db, &[("a", Some("1")), ("b", Some("2"))]);
    write(&mut db, &[("a", Some("3")), ("b", None)]);
    let file = db.snapshot().unwrap().unwrap();
    let mut again = open(options(), Some(&file), None);
    assert_eq!(read(&mut again, "a"), some("3"));
    assert_eq!(read(&mut again, "b"), None);
    assert_eq!(read(&mut again, "c"), None);
}

#[test]
fn a_snapshot_holds_the_whole_chain() {
    let mut db = open(options(), None, None);
    write(&mut db, &[("a", Some("1"))]);
    let old = db.transaction(false);
    let version = old.version();
    write(&mut db, &[("a", Some("2"))]);
    let file = db.snapshot().unwrap().unwrap();
    let again = open(options(), Some(&file), None);
    let twice = again.snapshot().unwrap().unwrap();
    assert_eq!(file, twice);
    assert!(version > 0);
}

#[test]
fn a_compressed_snapshot_restores_every_read() {
    let popts = options().with_compression_mode(CompressionMode::Lz4);
    let mut db = open(popts, None, None);
    let long = "x".repeat(10_000);
    write(&mut db, &[("a", Some(&long)), ("b", Some("2"))]);
    let file = db.snapshot().unwrap().unwrap();
    assert_eq!(&file[0..4], &[0x04, 0x22, 0x4D, 0x18]);
    assert!(file.len() < 5_000);
    let mut again = open(options(), Some(&file), None);
    assert_eq!(read(&mut again, "a"), Some(Bytes::from(long)));
    assert_eq!(read(&mut again, "b"), some("2"));
}

#[test]
fn a_database_in_memory_takes_no_snapshot() {
    assert!(Database::new().snapshot().is_none());
}

#[test]
fn an_empty_store_makes_an_empty_snapshot() {
    let db = open(options(), None, None);
    assert_eq!(db.snapshot().unwrap().unwrap().len(), 0);
}

#[test]
fn the_log_of_commits_restores_them() {
    let popts = options().with_sync_aol(Duration::from_secs(60));
    let mut db = open(popts.clone(), None, None);
    let mut log = write(&mut db, &[("a", Some("1")), ("b", Some("2"))]);
    log.extend(write(&mut db, &[("a", None), ("c", Some("3"))]));
    let mut again = open(popts, None, Some(&log));
    assert_eq!(read(&mut again, "a"), None);
    assert_eq!(read(&mut again, "b"), some("2"));
    assert_eq!(read(&mut again, "c"), some("3"));
}

#[test]
fn a_snapshot_and_the_log_since_it_lose_nothing() {
    let popts = options().with_sync_aol(Duration::from_secs(60));
    let mut db = open(popts.clone(), None, None);
    let mut log = write(&mut db, &[("a", Some("1")), ("b", Some("1"))]);
    let position = log.len() as u64;
    let file = db.snapshot().unwrap().unwrap();
    log.extend(write(&mut db, &[("a", Some("2"))]));
    let mut p = db.take_persistence().unwrap();
    let tail = p.truncate(&log, position);
    db.put_persistence(p);
    assert_eq!(&tail[..], &log[position as usize..]);
    let mut again = open(popts.clone(), Some(&file), Some(&tail));
    assert_eq!(read(&mut again, "a"), some("2"));
    assert_eq!(read(&mut again, "b"), some("1"));
    // The log from before the snapshot does no harm either.
    let mut twice = open(popts, Some(&file), Some(&log));
    assert_eq!(read(&mut twice, "a"), some("2"));
    assert_eq!(read(&mut twice, "b"), some("1"));
}

#[test]
fn a_record_that_was_cut_off_is_dropped() {
    let popts = options().with_sync_aol(Duration::from_secs(60));
    let mut db = open(popts.clone(), None, None);
    let first = write(&mut db, &[("a", Some("1"))]);
    let second = write(&mut db, &[("b", Some("2"))]);
    for cut in 0..second.len() {
        let mut log = first.clone();
        log.extend(&second[..cut]);
        let mut again = open(popts.clone(), None, Some(&log));
        assert_eq!(read(&mut again, "a"), some("1"));
        assert_eq!(read(&mut again, "b"), None);
    }
}

#[test]
fn bytes_that_are_no_record_are_an_error() {
    // A key of one byte, version 1, and a mark that is neither "nothing" nor "something".
    let broken = [1, b'k', 1, 7];
    let logged = options().with_sync_aol(Duration::from_secs(60));
    match Database::new_with_persistence(DatabaseOptions::default(), logged, None, Some(&broken)) {
        Err(PersistenceError::Deserialization(_)) => {}
        _ => panic!("it was read"),
    }
    // The same for a snapshot: a key of one byte with one version, whose mark is wrong.
    let broken = [1, b'k', 1, 1, 7];
    match Database::new_with_persistence(DatabaseOptions::default(), options(), Some(&broken), None)
    {
        Err(PersistenceError::Deserialization(_)) => {}
        _ => panic!("it was read"),
    }
}

#[test]
fn records_are_what_bincode_makes_of_them() {
    let mut p = Persistence::new_with_options(options().with_aol_mode(AolMode::SynchronousOnCommit));
    match p.append(5, &set_of(&[("k", Some("v")), ("l", None)])).unwrap() {
        AppendPlan::Write(b) => assert_eq!(b, vec![1, b'k', 5, 1, 1, b'v', 1, b'l', 5, 0]),
        _ => panic!("nothing to write"),
    }
}

#[test]
fn empty_files_are_like_none() {
    let mut db = open(options(), Some(&[]), Some(&[]));
    assert_eq!(read(&mut db, "a"), None);
}

#[test]
fn recovered_databases_start_without_open_transactions() {
    let mut db = open(options(), None, None);
    write(&mut db, &[("a", Some("1"))]);
    let file = db.snapshot().unwrap().unwrap();
    let mut again = open(options(), Some(&file), None);
    assert_eq!(again.transaction_commit_id(), 0);
    again.run_gc();
    assert_eq!(read(&mut again, "a"), some("1"));
}

#[test]
fn the_log_may_fail() {
    let popts = options().with_sync_aol(Duration::from_secs(60));
    let mut db = open(popts, None, None);
    write(&mut db, &[("a", Some("0")), ("d", Some("0")), ("x", Some("0"))]);
    let mut early = db.transaction(true);
    early.set("a", "early").unwrap();
    let mut tx = db.transaction(true);
    tx.set("a", "1").unwrap();
    tx.set("b", "1").unwrap();
    tx.del("d").unwrap();
    let pending = wait_for_log(&mut tx, &mut db);
    assert_eq!(read(&mut db, "a"), some("1"));
    let failed = PersistenceError::LockFailed("poisoned".to_string());
    match tx.commit_finish(&mut db, pending, Err(failed)) {
        Err(Error::TxCommitNotPersisted(PersistenceError::LockFailed(_))) => {}
        _ => panic!("it did not fail"),
    }
    assert!(tx.closed());
    db.release(tx);
    assert_eq!(read(&mut db, "a"), some("0"));
    assert_eq!(read(&mut db, "b"), None);
    assert_eq!(read(&mut db, "d"), some("0"));
    assert_eq!(read(&mut db, "x"), some("0"));
    assert_eq!(early.get(&db, "d").unwrap(), some("0"));
    // What was taken back is in nobody's way.
    let pending = wait_for_log(&mut early, &mut db);
    early.commit_finish(&mut db, pending, Ok(())).unwrap();
    assert_eq!(read(&mut db, "a"), some("early"));
    write(&mut db, &[("b", Some("2"))]);
    db.run_gc();
    assert_eq!(read(&mut db, "b"), some("2"));
    assert_eq!(read(&mut db, "d"), some("0"));
}

#[test]
fn what_was_written_meanwhile_is_not_taken_back() {
    let popts = options().with_sync_aol(Duration::from_secs(60));
    let mut db = open(popts, None, None);
    write(&mut db, &[("a", Some("0")), ("b", Some("0")), ("c", Some("0"))]);
    let mut tx = db.transaction(true);
    tx.set("a", "1").unwrap();
    tx.set("b", "1").unwrap();
    tx.set("c", "1").unwrap();
    let pending = wait_for_log(&mut tx, &mut db);
    // One key gets another value, and one the same.
    write(&mut db, &[("a", Some("2")), ("b", Some("1"))]);
    let failed = PersistenceError::LockFailed("poisoned".to_string());
    assert!(tx.commit_finish(&mut db, pending, Err(failed)).is_err());
    db.release(tx);
    write(&mut db, &[("z", Some("0"))]);
    assert_eq!(read(&mut db, "a"), some("2"));
    assert_eq!(read(&mut db, "b"), some("1"));
    assert_eq!(read(&mut db, "c"), some("0"));
}

#[test]
fn a_log_file_has_no_effect_without_a_log() {
    // The key "k" at version 7 with the value "x".
    let log = [1, b'k', 7, 1, 1, b'x'];
    let mut with = open(options().with_sync_aol(Duration::from_secs(60)), None, Some(&log));
    assert_eq!(read(&mut with, "k"), some("x"));
    let mut without = open(options(), None, Some(&log));
    assert_eq!(read(&mut without, "k"), None);
    let broken = [1, b'k', 1, 7];
    let mut without = open(options(), None, Some(&broken));
    assert_eq!(read(&mut without, "k"), None);
}

#[test]
fn the_log_holds_all_commits_in_order_wherever_batches_split() {
    let popts = options().with_async_aol(Duration::from_secs(60));
    let mut p = Persistence::new_with_options(popts.clone());
    let start = encode_batch(&vec![AsyncAppendOperation {
        version: 1,
        writeset: set_of(&[("first", Some("0"))]),
    }])
    .unwrap();
    let mut log = start.clone();
    let mut expected = start;
    let mut sizes = Vec::new();
    for version in 2..252u64 {
        let key = format!("k{}", version % 7);
        let writes = set_of(&[(key.as_str(), Some("v")), ("z", None)]);
        let one = AsyncAppendOperation { version, writeset: writes.clone() };
        expected.extend(encode_batch(&vec![one]).unwrap());
        assert!(matches!(p.append(version, &writes), Ok(AppendPlan::Queued)));
    }
    loop {
        let mut batch: Vec<AsyncAppendOperation> = Vec::new();
        let step = loop {
            match p.fill_batch(&mut batch) {
                BatchStep::Retry | BatchStep::More => {}
                step => break step,
            }
        };
        if step == BatchStep::Wait {
            break;
        }
        sizes.push(batch.len());
        log.extend(encode_batch(&batch).unwrap());
    }
    assert_eq!(sizes, [100, 100, 50]);
    assert_eq!(log, expected);
    assert!(p.runs_appender());
    assert!(!Persistence::new_with_options(options()).runs_appender());
}

#[test]
fn a_commit_is_seen_while_it_waits_for_the_log() {
    let popts = options().with_sync_aol(Duration::from_secs(60));
    let mut db = open(popts, None, None);
    let mut early = db.transaction(false);
    let mut tx = db.transaction(true);
    tx.set("a", "1").unwrap();
    let now = db.current_time_ns();
    let step = tx.commit_start_at(&mut db, now).unwrap();
    assert_eq!(read(&mut db, "a"), some("1"));
    assert_eq!(early.get(&db, "a").unwrap(), None);
    match step {
        CommitStep::Log(pending, _) => tx.commit_finish(&mut db, pending, Ok(())).unwrap(),
        CommitStep::Done => panic!("there is a log"),
    }
    assert_eq!(read(&mut db, "a"), some("1"));
    assert_eq!(early.get(&db, "a").unwrap(), None);
}

#[test]
fn commits_wait_in_the_queue_for_a_log_that_is_written_later() {
    let popts = options().with_async_aol(Duration::from_secs(60));
    let mut db = open(popts.clone(), None, None);
    assert!(write(&mut db, &[("a", Some("1"))]).is_empty());
    assert!(write(&mut db, &[("b", Some("2"))]).is_empty());
    let mut p = db.take_persistence().unwrap();
    let mut batch: Vec<AsyncAppendOperation> = Vec::new();
    let last = loop {
        match p.fill_batch(&mut batch) {
            BatchStep::Retry | BatchStep::More => {}
            step => break step,
        }
    };
    assert_eq!(last, BatchStep::Flush);
    assert_eq!(batch.len(), 2);
    assert!(batch[0].version < batch[1].version);
    let log = encode_batch(&batch).unwrap();
    let mut again = open(popts, None, Some(&log));
    assert_eq!(read(&mut again, "a"), some("1"));
    assert_eq!(read(&mut again, "b"), some("2"));
    batch.clear();
    let last = loop {
        match p.fill_batch(&mut batch) {
            BatchStep::Retry => {}
            step => break step,
        }
    };
    assert_eq!(last, BatchStep::Wait);
}

#[test]
fn an_empty_queue_is_not_tried_again() {
    let mut db = open(options().with_async_aol(Duration::from_secs(60)), None, None);
    let mut p = db.take_persistence().unwrap();
    let mut batch: Vec<AsyncAppendOperation> = Vec::new();
    assert_eq!(p.fill_batch(&mut batch), BatchStep::Wait);
    assert!(batch.is_empty());
    batch.push(AsyncAppendOperation { version: 5, writeset: set_of(&[("k", None)]) });
    assert_eq!(p.fill_batch(&mut batch), BatchStep::Flush);
    assert_eq!(batch.len(), 1);
    assert_eq!(batch[0].version, 5);
}

#[test]
fn a_batch_is_written_when_it_is_full_or_nothing_is_left() {
    let op = |v: u64| AsyncAppendOperation { version: v, writeset: set_of(&[("k", None)]) };
    assert_eq!(BATCH_SIZE, 100);
    assert_eq!(BATCH_WAIT_MS, 10);
    let mut batch = Vec::new();
    assert_eq!(take_into(&mut batch, Stolen::Empty), BatchStep::Wait);
    assert_eq!(take_into(&mut batch, Stolen::Retry), BatchStep::Retry);
    for i in 0..99 {
        assert_eq!(take_into(&mut batch, Stolen::Success(op(i))), BatchStep::More);
    }
    assert_eq!(take_into(&mut batch, Stolen::Retry), BatchStep::Retry);
    assert_eq!(take_into(&mut batch, Stolen::Empty), BatchStep::Flush);
    assert_eq!(batch.len(), 99);
    assert_eq!(take_into(&mut batch, Stolen::Success(op(99))), BatchStep::Flush);
    assert_eq!(batch.len(), 100);
    assert_eq!(batch[7].version, 7);
}

#[test]
fn an_append_is_skipped_without_a_log() {
    let mut p = Persistence::new_with_options(options());
    match p.append(1, &set_of(&[("k", Some("v"))])).unwrap() {
        AppendPlan::Skip => {}
        _ => panic!("there is no log"),
    }
    assert!(!p.has_log());
    assert!(!p.runs_appender());
    assert!(!p.logs_synchronously());
}

#[test]
fn the_log_is_forced_to_disk_as_is_settled() {
    let with = |m: FsyncMode| {
        Persistence::new_with_options(
            options().with_aol_mode(AolMode::SynchronousOnCommit).with_fsync_mode(m),
        )
    };
    let ms = Duration::from_millis;

    let mut p = with(FsyncMode::Never);
    assert_eq!(p.after_append_at(&ms(1_000_000)), SyncStep::Skip);
    assert!(p.needs_sync());
    assert!(p.sync_on_close());

    let mut p = with(FsyncMode::EveryAppend);
    assert_eq!(p.after_append_at(&ms(0)), SyncStep::Sync);
    assert!(!p.needs_sync());

    let mut p = with(FsyncMode::Interval(ms(100)));
    assert_eq!(p.after_append_at(&ms(99)), SyncStep::Skip);
    assert!(p.needs_sync());
    assert_eq!(p.after_append_at(&ms(100)), SyncStep::SyncAndReset);
    assert!(p.needs_sync());
    p.synced();
    assert!(!p.needs_sync());
    assert!(!p.sync_on_close());
    assert_eq!(p.after_append_at(&ms(101)), SyncStep::SyncAndReset);

    let mut p = with(FsyncMode::Interval(ms(0)));
    assert_eq!(p.after_append(), SyncStep::SyncAndReset);
    let mut p = with(FsyncMode::Interval(ms(3_600_000)));
    assert_eq!(p.after_append(), SyncStep::Skip);
}

#[test]
fn nothing_is_forced_to_disk_on_close_without_a_log() {
    let mut p = Persistence::new_with_options(options());
    p.after_append_at(&Duration::from_millis(1));
    assert!(p.needs_sync());
    assert!(!p.sync_on_close());
}

#[test]
fn a_log_is_cut_at_the_position_of_the_snapshot() {
    let mut p = Persistence::new_with_options(
        options().with_aol_mode(AolMode::SynchronousOnCommit),
    );
    p.after_append_at(&Duration::from_millis(1));
    assert_eq!(p.truncate(&[1, 2, 3, 4], 3), vec![4]);
    assert_eq!(p.truncate(&[1, 2, 3, 4], 4), Vec::<u8>::new());
    assert_eq!(p.truncate(&[1, 2, 3, 4], 9), Vec::<u8>::new());
    assert!(p.needs_sync());
    assert_eq!(p.truncate(&[1, 2, 3, 4], 0), vec![1, 2, 3, 4]);
    assert!(!p.needs_sync());
}

#[test]
fn workers_run_as_is_settled() {
    let secs = Duration::from_secs;
    let p = Persistence::new_with_options(options());
    assert_eq!(p.snapshot_worker_interval(), None);
    assert_eq!(p.fsync_worker_interval(), None);

    let p = Persistence::new_with_options(options().with_pure_snapshot(secs(7)));
    assert_eq!(p.snapshot_worker_interval(), Some(secs(7)));
    assert!(!p.has_log());

    let p = Persistence::new_with_options(options().with_async_aol(secs(7)));
    assert_eq!(p.snapshot_worker_interval(), Some(secs(7)));
    assert_eq!(p.fsync_worker_interval(), Some(Duration::from_millis(100)));
    assert!(p.has_log() && p.runs_appender() && !p.logs_synchronously());

    let p = Persistence::new_with_options(options().with_sync_aol(secs(7)));
    assert_eq!(p.fsync_worker_interval(), None);
    assert!(p.has_log() && !p.runs_appender() && p.logs_synchronously());

    let p = Persistence::new_with_options(
        options().with_fsync_mode(FsyncMode::Interval(secs(1))),
    );
    assert_eq!(p.fsync_worker_interval(), None);
}

#[test]
fn files_go_where_they_are_told() {
    assert_eq!(path_choice(None), PathChoice::Usual);
    assert_eq!(path_choice(Some(true)), PathChoice::Given);
    assert_eq!(path_choice(Some(false)), PathChoice::UnderBase);

    let p = Persistence::new_with_options(options());
    assert_eq!(p.aol_path(), std::path::Path::new("base/aol.bin"));
    assert_eq!(p.snapshot_path(), std::path::Path::new("base/snapshot.bin"));

    let p = Persistence::new_with_options(
        options()
            .with_aol_path(Some("logs/a.log".into()))
            .with_snapshot_path(Some("/var/s.bin".into())),
    );
    assert_eq!(p.aol_path(), std::path::Path::new("base/logs/a.log"));
    assert_eq!(p.snapshot_path(), std::path::Path::new("/var/s.bin"));
}

#[test]
fn settings_have_defaults() {
    let o = PersistenceOptions::default();
    assert_eq!(o.base_path, std::path::PathBuf::from("./data"));
    assert_eq!(o.snapshot_mode, SnapshotMode::Never);
    assert_eq!(o.snapshot_path, None);
    assert_eq!(o.aol_mode, AolMode::Never);
    assert_eq!(o.aol_path, None);
    assert_eq!(o.fsync_mode, FsyncMode::Never);
    assert_eq!(o.compression_mode, CompressionMode::Uncompressed);
    assert_eq!(AolMode::default(), AolMode::Never);
    assert_eq!(FsyncMode::default(), FsyncMode::Never);
    assert_eq!(SnapshotMode::default(), SnapshotMode::Never);
    assert_eq!(CompressionMode::default(), CompressionMode::Uncompressed);
}

#[test]
fn settings_are_built() {
    let secs = Duration::from_secs;
    let o = PersistenceOptions::new("x")
        .with_base_path("y")
        .with_snapshot_mode(SnapshotMode::Interval(secs(3)))
        .with_aol_mode(AolMode::AsynchronousAfterCommit)
        .with_fsync_mode(FsyncMode::EveryAppend)
        .with_compression_mode(CompressionMode::Lz4);
    let c = o.clone();
    assert_eq!(c.base_path, std::path::PathBuf::from("y"));
    assert_eq!(c.snapshot_mode, SnapshotMode::Interval(secs(3)));
    assert_eq!(c.aol_mode, AolMode::AsynchronousAfterCommit);
    assert_eq!(c.fsync_mode, FsyncMode::EveryAppend);
    assert_eq!(c.compression_mode, CompressionMode::Lz4);
    let o = o.with_pure_snapshot(secs(4));
    assert_eq!(o.snapshot_mode, SnapshotMode::Interval(secs(4)));
    assert_eq!(o.aol_mode, AolMode::Never);
    assert_eq!(o.fsync_mode, FsyncMode::Never);
    let o = o.with_async_aol(secs(5));
    assert_eq!(o.aol_mode, AolMode::AsynchronousAfterCommit);
    assert_eq!(o.fsync_mode, FsyncMode::Interval(Duration::from_millis(100)));
    let o = o.with_sync_aol(secs(6));
    assert_eq!(o.snapshot_mode, SnapshotMode::Interval(secs(6)));
    assert_eq!(o.aol_mode, AolMode::SynchronousOnCommit);
    assert_eq!(o.fsync_mode, FsyncMode::EveryAppend);
}

#[test]
fn what_is_packed_is_read_back() {
    let mut data = Vec::new();
    for i in 0..200_000u32 {
        data.extend((i / 3).to_le_bytes());
    }
    for mode in [CompressionMode::Uncompressed, CompressionMode::Lz4] {
        let mut w = CompressedWriter::new(mode);
        w.write(&data[..10]);
        w.write(&data[10..]);
        let file = w.finish().unwrap();
        assert_eq!(detect(&file), mode);
        assert_eq!(read_packed(&file).unwrap(), data);
    }
    let w = CompressedWriter::new(CompressionMode::Lz4);
    assert_eq!(read_packed(&w.finish().unwrap()).unwrap(), Vec::<u8>::new());
}

#[test]
fn compression_is_told_by_the_first_bytes() {
    assert_eq!(detect(&[]), CompressionMode::Uncompressed);
    assert_eq!(detect(&[0x04, 0x22, 0x4D]), CompressionMode::Uncompressed);
    assert_eq!(detect(&[0x04, 0x22, 0x4D, 0x18]), CompressionMode::Lz4);
    assert_eq!(detect(&[0x04, 0x22, 0x4D, 0x19, 0]), CompressionMode::Uncompressed);
    assert_eq!(read_packed(&[1, 2, 3]).unwrap(), vec![1, 2, 3]);
    assert!(read_packed(&[0x04, 0x22, 0x4D, 0x18, 0, 0, 0, 0, 0, 0, 0, 0]).is_err());
}
