use bytes::Bytes;
use std::time::Duration;
use stupid_kv::capi::{
    buffer_is_sound, check_buffers, db_options, map_err, map_persistence_err, panicked,
    persist_options, Reply, SkDbOptions, SkPersistOptions, TxHandle, WriteOp, SK_ALREADY_EXISTS,
    SK_COMMIT_NOT_PERSISTED, SK_IO, SK_NOT_FOUND, SK_NULL_ARG, SK_OK, SK_PANIC, SK_READ_CONFLICT,
    SK_TX_CLOSED, SK_TX_NOT_WRITABLE, SK_WRITE_CONFLICT,
};
use stupid_kv::error::Error;
use stupid_kv::python::{
    exit_action, open_err_to_py, tx_err_to_py, ExceptionKind, ExitAction, PyDatabaseOptions,
    PyPersistenceOptions, PyTransaction,
};
use stupid_kv::text::{number_text, parse_u16, signed_text};
use stupid_kv::{
    AolMode, CommitStep, CompressionMode, Database, DatabaseOptions, FsyncMode, PersistenceError,
    PersistenceOptions, SnapshotMode,
};

fn said(r: Reply) -> (i32, String) {
    (r.code, r.message.unwrap_or_default())
}

fn locked() -> PersistenceError {
    PersistenceError::LockFailed("poisoned".to_string())
}

fn commit(tx: &mut TxHandle, db: &mut Database) -> (i32, String) {
    let now = db.current_time_ns();
    match tx.commit_start_at(db, now) {
        Ok(CommitStep::Done) => (SK_OK, String::new()),
        Ok(CommitStep::Log(pending, _)) => said(tx.commit_finish(db, pending, Ok(()))),
        Err(r) => said(r),
    }
}

#[test]
fn codes_of_errors() {
    let code = |e: Error| said(map_err(e));
    assert_eq!(code(Error::TxClosed), (-2, "transaction is closed".to_string()));
    assert_eq!(code(Error::TxNotWritable), (-3, "transaction is not writable".to_string()));
    assert_eq!(
        code(Error::KeyWriteConflict),
        (-4, "write conflict, retry the transaction".to_string())
    );
    assert_eq!(
        code(Error::KeyReadConflict),
        (-5, "read conflict, retry the transaction".to_string())
    );
    assert_eq!(code(Error::KeyAlreadyExists), (-6, "key already exists".to_string()));
    assert_eq!(
        code(Error::TxCommitNotPersisted(locked())),
        (-7, "commit not persisted: Lock acquisition failed".to_string())
    );
    assert_eq!(
        said(map_persistence_err(PersistenceError::from(std::io::Error::other("gone")))),
        (SK_IO, "IO error: gone".to_string())
    );
    assert_eq!(said(panicked()), (SK_PANIC, "rust panic escaped the FFI boundary".to_string()));
    assert_eq!((SK_OK, SK_NOT_FOUND, SK_NULL_ARG, SK_IO, SK_PANIC), (0, 1, -1, -8, -99));
    assert_eq!((SK_TX_CLOSED, SK_TX_NOT_WRITABLE, SK_WRITE_CONFLICT), (-2, -3, -4));
    assert_eq!((SK_READ_CONFLICT, SK_ALREADY_EXISTS, SK_COMMIT_NOT_PERSISTED), (-5, -6, -7));
}

#[test]
fn null_buffers_have_to_be_empty() {
    assert!(buffer_is_sound(false, 0));
    assert!(buffer_is_sound(false, 9));
    assert!(buffer_is_sound(true, 0));
    assert!(!buffer_is_sound(true, 9));
    assert!(check_buffers((false, 1), None).is_none());
    assert!(check_buffers((true, 0), Some((true, 0))).is_none());
    let bad = |k, v| said(check_buffers(k, v).unwrap());
    assert_eq!(bad((true, 1), None), (-1, "invalid key buffer".to_string()));
    assert_eq!(bad((true, 1), Some((true, 1))), (-1, "invalid key buffer".to_string()));
    assert_eq!(bad((false, 1), Some((true, 1))), (-1, "invalid value buffer".to_string()));
}

#[test]
fn handles_do_what_transactions_do() {
    let mut db = Database::new();
    let mut tx = TxHandle::new(db.transaction(true));
    assert_eq!(tx.is_closed(), 0);
    assert!(tx.version() > 0);
    let (r, v) = tx.get(&db, b"k");
    assert_eq!((r.code, r.message, v), (SK_NOT_FOUND, None, None));
    assert_eq!(tx.contains(&db, b"k").1, 0);
    assert_eq!(tx.write_op(&db, b"k", Some(b"v"), WriteOp::Assign).code, SK_OK);
    let (r, v) = tx.get(&db, b"k");
    assert_eq!((r.code, v), (SK_OK, Some(Bytes::from_static(b"v"))));
    assert_eq!(tx.contains(&db, b"k").1, 1);
    assert_eq!(tx.write_op(&db, b"k", Some(b"w"), WriteOp::Put).code, SK_ALREADY_EXISTS);
    assert_eq!(tx.write_op(&db, b"l", Some(b"w"), WriteOp::Put).code, SK_OK);
    assert_eq!(tx.write_op(&db, b"l", None, WriteOp::Del).code, SK_OK);
    assert_eq!(tx.write_op(&db, b"l", None, WriteOp::Assign).code, SK_TX_NOT_WRITABLE);
    assert_eq!(tx.write_op(&db, b"l", None, WriteOp::Put).code, SK_TX_NOT_WRITABLE);
    assert_eq!(commit(&mut tx, &mut db).0, SK_OK);
    assert_eq!(tx.is_closed(), 1);
    assert_eq!(commit(&mut tx, &mut db), (SK_TX_CLOSED, "transaction is closed".to_string()));
    assert_eq!(tx.cancel().code, SK_TX_CLOSED);
    assert_eq!(tx.get(&db, b"k").0.code, SK_TX_CLOSED);
    assert_eq!(tx.contains(&db, b"k").0.code, SK_TX_CLOSED);
    assert_eq!(tx.write_op(&db, b"k", None, WriteOp::Del).code, SK_TX_CLOSED);
    db.release(tx.take().unwrap());

    let mut tx = TxHandle::new(db.transaction(false));
    assert_eq!(tx.get(&db, b"k").1, Some(Bytes::from_static(b"v")));
    assert_eq!(tx.write_op(&db, b"k", Some(b"x"), WriteOp::Assign).code, SK_TX_NOT_WRITABLE);
    assert_eq!(tx.cancel().code, SK_OK);
    db.release(tx.take().unwrap());
}

#[test]
fn handles_without_a_transaction_are_closed() {
    let mut db = Database::new();
    let mut tx = TxHandle::new(db.transaction(true));
    db.release(tx.take().unwrap());
    assert!(tx.take().is_none());
    assert_eq!(tx.version(), 0);
    assert_eq!(tx.is_closed(), 1);
    assert_eq!(tx.switch_isolation(true).code, SK_TX_CLOSED);
    assert_eq!(tx.get(&db, b"k").0.code, SK_TX_CLOSED);
    assert_eq!(tx.contains(&db, b"k").0.code, SK_TX_CLOSED);
    assert_eq!(tx.write_op(&db, b"k", None, WriteOp::Del).code, SK_TX_CLOSED);
    assert_eq!(commit(&mut tx, &mut db).0, SK_TX_CLOSED);
    assert_eq!(tx.cancel().code, SK_TX_CLOSED);
}

#[test]
fn handles_switch_isolation() {
    for (ssi, expected) in [(true, SK_READ_CONFLICT), (false, SK_OK)] {
        let mut db = Database::new();
        let mut a = TxHandle::new(db.transaction(true));
        let mut b = TxHandle::new(db.transaction(true));
        assert_eq!(a.switch_isolation(true).code, SK_OK);
        assert_eq!(a.switch_isolation(ssi).code, SK_OK);
        a.get(&db, b"r");
        a.write_op(&db, b"w", Some(b"1"), WriteOp::Assign);
        b.write_op(&db, b"r", Some(b"1"), WriteOp::Assign);
        assert_eq!(commit(&mut b, &mut db).0, SK_OK);
        assert_eq!(commit(&mut a, &mut db).0, expected);
    }
}

#[test]
fn handles_wait_for_the_log() {
    let popts = PersistenceOptions::new("base").with_sync_aol(Duration::from_secs(1));
    let mut db =
        Database::new_with_persistence(DatabaseOptions::default(), popts, None, None).unwrap();
    let mut tx = TxHandle::new(db.transaction(true));
    tx.write_op(&db, b"k", Some(b"v"), WriteOp::Assign);
    match tx.commit_start_at(&mut db, u64::MAX - 1) {
        Ok(CommitStep::Log(pending, bytes)) => {
            assert_eq!(&bytes[..2], &[1, b'k']);
            assert_eq!(pending.version, u64::MAX - 1);
            let r = tx.commit_finish(&mut db, pending, Err(locked()));
            assert_eq!(r.code, SK_COMMIT_NOT_PERSISTED);
            let text = "commit not persisted: Lock acquisition failed";
            assert_eq!(r.message.unwrap(), text);
        }
        _ => panic!("there is a log"),
    }
    assert_eq!(tx.is_closed(), 1);
    assert_eq!(db.transaction(false).get(&db, "k").unwrap(), None);
}

fn plain() -> SkDbOptions {
    SkDbOptions {
        gc_interval_ms: 0,
        cleanup_interval_ms: 0,
        gc_full_scan_frequency: 0,
        pool_size: 0,
        reset_threshold: 0,
        enable_cleanup: -1,
        enable_gc: -1,
    }
}

#[test]
fn settings_that_are_left_out_keep_their_defaults() {
    for o in [plain().to_kv(), db_options(None), db_options(Some(&plain()))] {
        assert_eq!(o.gc_interval, Duration::from_millis(500));
        assert_eq!(o.cleanup_interval, Duration::from_secs(1));
        assert_eq!(o.gc_full_scan_frequency, 20);
        assert_eq!(o.pool_size, 512);
        assert_eq!(o.reset_threshold, 100);
        assert!(o.enable_cleanup);
        assert!(o.enable_gc);
    }
    let o = SkDbOptions {
        gc_interval_ms: 7,
        cleanup_interval_ms: 8,
        gc_full_scan_frequency: 9,
        pool_size: 10,
        reset_threshold: 11,
        enable_cleanup: 0,
        enable_gc: 2,
    }
    .to_kv();
    assert_eq!(o.gc_interval, Duration::from_millis(7));
    assert_eq!(o.cleanup_interval, Duration::from_millis(8));
    assert_eq!(o.gc_full_scan_frequency, 9);
    assert_eq!(o.pool_size, 10);
    assert_eq!(o.reset_threshold, 11);
    assert!(!o.enable_cleanup);
    assert!(o.enable_gc);
}

fn files() -> SkPersistOptions {
    SkPersistOptions {
        base_path: Some("base".to_string()),
        snapshot_path: None,
        aol_path: None,
        snapshot_mode: 0,
        snapshot_interval_ms: 0,
        aol_mode: 0,
        fsync_mode: 0,
        fsync_interval_ms: 0,
        compression: 0,
    }
}

#[test]
fn numbers_stand_for_settings() {
    let o = files().to_kv().unwrap();
    assert_eq!(o.base_path, std::path::PathBuf::from("base"));
    assert_eq!(o.snapshot_path, None);
    assert_eq!(o.aol_path, None);
    assert_eq!(o.snapshot_mode, SnapshotMode::Never);
    assert_eq!(o.aol_mode, AolMode::Never);
    assert_eq!(o.fsync_mode, FsyncMode::Never);
    assert_eq!(o.compression_mode, CompressionMode::Uncompressed);
    let o = SkPersistOptions {
        snapshot_path: Some("s".to_string()),
        aol_path: Some("a".to_string()),
        snapshot_mode: 1,
        snapshot_interval_ms: 5,
        aol_mode: 1,
        fsync_mode: 1,
        compression: 1,
        ..files()
    }
    .to_kv()
    .unwrap();
    assert_eq!(o.snapshot_path, Some("s".into()));
    assert_eq!(o.aol_path, Some("a".into()));
    assert_eq!(o.snapshot_mode, SnapshotMode::Interval(Duration::from_millis(5)));
    assert_eq!(o.aol_mode, AolMode::SynchronousOnCommit);
    assert_eq!(o.fsync_mode, FsyncMode::EveryAppend);
    assert_eq!(o.compression_mode, CompressionMode::Lz4);
    let interval = |ms: u64| {
        SkPersistOptions { aol_mode: 2, fsync_mode: 2, fsync_interval_ms: ms, ..files() }
            .to_kv()
            .unwrap()
    };
    assert_eq!(interval(30).aol_mode, AolMode::AsynchronousAfterCommit);
    assert_eq!(interval(30).fsync_mode, FsyncMode::Interval(Duration::from_millis(30)));
    assert_eq!(interval(0).fsync_mode, FsyncMode::Interval(Duration::from_millis(1)));
}

#[test]
fn numbers_without_a_meaning_are_refused() {
    let fault = |o: SkPersistOptions| o.to_kv().err().unwrap();
    assert_eq!(fault(SkPersistOptions { base_path: None, ..files() }), "base_path is NULL");
    assert_eq!(
        fault(SkPersistOptions { snapshot_mode: 2, ..files() }),
        "invalid snapshot_mode: 2"
    );
    assert_eq!(fault(SkPersistOptions { aol_mode: -1, ..files() }), "invalid aol_mode: -1");
    assert_eq!(
        fault(SkPersistOptions { fsync_mode: i32::MIN, ..files() }),
        "invalid fsync_mode: -2147483648"
    );
    assert_eq!(fault(SkPersistOptions { compression: 10, ..files() }), "invalid compression: 10");
    let refused = |o: Option<&SkPersistOptions>| said(persist_options(o).err().unwrap());
    assert_eq!(refused(None), (-1, "popts is NULL".to_string()));
    let bad = SkPersistOptions { base_path: None, ..files() };
    assert_eq!(refused(Some(&bad)), (-1, "base_path is NULL".to_string()));
    assert!(persist_options(Some(&files())).is_ok());
}

#[test]
fn exceptions_of_errors() {
    let raised = |e: Error, k: ExceptionKind, t: &str| {
        assert_eq!(tx_err_to_py(e), (k, t.to_string()));
    };
    raised(
        Error::KeyWriteConflict,
        ExceptionKind::KeyWriteConflict,
        "write-write conflict detected",
    );
    raised(
        Error::KeyReadConflict,
        ExceptionKind::KeyReadConflict,
        "read-write conflict detected (Serializable Snapshot Isolation)",
    );
    raised(Error::KeyAlreadyExists, ExceptionKind::KeyAlreadyExists, "key already exists");
    raised(Error::TxClosed, ExceptionKind::TxClosed, "transaction is closed");
    raised(Error::TxNotWritable, ExceptionKind::TxNotWritable, "transaction is read-only");
    raised(
        Error::TxCommitNotPersisted(locked()),
        ExceptionKind::OsError,
        "Lock acquisition failed",
    );
    assert_eq!(
        open_err_to_py(PersistenceError::from(std::io::Error::other("gone"))),
        (ExceptionKind::OsError, "IO error: gone".to_string())
    );
}

#[test]
fn leaving_a_block_commits_or_cancels() {
    assert_eq!(exit_action(false, false), ExitAction::Commit);
    assert_eq!(exit_action(false, true), ExitAction::Cancel);
    assert_eq!(exit_action(true, false), ExitAction::Nothing);
    assert_eq!(exit_action(true, true), ExitAction::Nothing);
}

#[test]
fn python_transactions() {
    let mut db = Database::new();
    let mut tx = PyTransaction::new(db.transaction(true));
    tx.with_serializable_snapshot_isolation();
    tx.with_snapshot_isolation();
    assert!(!tx.closed());
    assert_eq!(tx.get(&db, b"k").unwrap(), None);
    tx.set(b"k", b"v").unwrap();
    assert_eq!(tx.get(&db, b"k").unwrap(), Some(Bytes::from_static(b"v")));
    assert!(tx.contains(&db, b"k").unwrap());
    assert_eq!(tx.put(&db, b"k", b"w").unwrap_err().0, ExceptionKind::KeyAlreadyExists);
    tx.put(&db, b"l", b"w").unwrap();
    tx.delete(b"l").unwrap();
    let version = tx.version();
    assert_eq!(
        tx.repr(),
        format!("<stupid_kv.Transaction version={} closed=false>", version)
    );
    let now = db.current_time_ns();
    assert!(matches!(tx.commit_start_at(&mut db, now), Ok(CommitStep::Done)));
    assert!(tx.closed());
    assert!(tx.repr().ends_with(" closed=true>"));
    assert!(tx.cancel().is_ok());
    assert_eq!(tx.set(b"k", b"v").unwrap_err().0, ExceptionKind::TxClosed);
    match tx.commit_start_at(&mut db, now) {
        Err((ExceptionKind::TxClosed, _)) => {}
        _ => panic!("it was closed"),
    }
    db.release(tx.take().unwrap());
    assert_eq!(tx.version(), 0);
    assert!(tx.closed());
    assert_eq!(tx.repr(), "<stupid_kv.Transaction version=0 closed=true>");
    assert_eq!(tx.cancel().unwrap_err().0, ExceptionKind::TxClosed);
    assert_eq!(tx.get(&db, b"k").unwrap_err().0, ExceptionKind::TxClosed);
    assert_eq!(tx.contains(&db, b"k").unwrap_err().0, ExceptionKind::TxClosed);
    assert_eq!(tx.put(&db, b"k", b"v").unwrap_err().0, ExceptionKind::TxClosed);
    assert_eq!(tx.delete(b"k").unwrap_err().0, ExceptionKind::TxClosed);

    let mut tx = PyTransaction::new(db.transaction(false));
    assert_eq!(tx.set(b"k", b"v").unwrap_err().0, ExceptionKind::TxNotWritable);
    assert_eq!(tx.get(&db, b"k").unwrap(), Some(Bytes::from_static(b"v")));
    assert!(tx.cancel().is_ok());
    assert!(tx.closed());
}

#[test]
fn python_transactions_wait_for_the_log() {
    let popts = PersistenceOptions::new("base").with_sync_aol(Duration::from_secs(1));
    let mut db =
        Database::new_with_persistence(DatabaseOptions::default(), popts, None, None).unwrap();
    let mut tx = PyTransaction::new(db.transaction(true));
    tx.set(b"k", b"v").unwrap();
    let now = db.current_time_ns();
    match tx.commit_start_at(&mut db, now) {
        Ok(CommitStep::Log(pending, _)) => {
            let r = tx.commit_finish(&mut db, pending, Err(locked()));
            let raised = r.unwrap_err();
            assert_eq!(raised.0, ExceptionKind::OsError);
            assert_eq!(raised.1, "Lock acquisition failed");
        }
        _ => panic!("there is a log"),
    }
    assert_eq!(db.transaction(false).get(&db, "k").unwrap(), None);
}

#[test]
fn python_settings() {
    let mut o = PyDatabaseOptions::new();
    o.with_gc_interval(7);
    o.with_cleanup_interval(8);
    o.inner.enable_gc = false;
    assert_eq!(o.inner.gc_interval, Duration::from_millis(7));
    assert_eq!(o.inner.cleanup_interval, Duration::from_millis(8));
    assert_eq!(o.repr(), "<stupid_kv.DatabaseOptions pool_size=512 cleanup=true gc=false>");

    let mut p = PyPersistenceOptions::new("./data");
    assert_eq!(p.base_path(), "./data");
    assert_eq!(p.repr(), "<stupid_kv.PersistenceOptions base_path='./data'>");
    p.set_base_path("other");
    assert_eq!(p.base_path(), "other");
    let p = p.with_snapshot_path("s").with_aol_path("a").with_async_aol(3);
    assert_eq!(p.inner.snapshot_path, Some("s".into()));
    assert_eq!(p.inner.aol_path, Some("a".into()));
    assert_eq!(p.inner.snapshot_mode, SnapshotMode::Interval(Duration::from_secs(3)));
    assert_eq!(p.inner.fsync_mode, FsyncMode::Interval(Duration::from_millis(100)));
    let p = p.with_sync_aol(4);
    assert_eq!(p.inner.aol_mode, AolMode::SynchronousOnCommit);
    let p = p.with_pure_snapshot(5);
    assert_eq!(p.inner.aol_mode, AolMode::Never);
    assert_eq!(p.inner.snapshot_mode, SnapshotMode::Interval(Duration::from_secs(5)));
}

#[test]
fn numbers_in_decimal() {
    assert_eq!(number_text(0), "0");
    assert_eq!(number_text(907), "907");
    assert_eq!(number_text(u64::MAX), "18446744073709551615");
    assert_eq!(signed_text(0), "0");
    assert_eq!(signed_text(-45), "-45");
    assert_eq!(signed_text(i32::MIN), "-2147483648");
    assert_eq!(parse_u16("007"), Some(7));
    assert_eq!(parse_u16("1 "), None);
    assert_eq!(parse_u16("+"), None);
}
