use std::time::Duration;

use bytes::Bytes;
use stupid_kv::{Database, DatabaseOptions};

/// What the background workers do when their intervals have passed.
fn background_round(db: &mut Database, cycle: u64) -> u64 {
    db.run_cleanup();
    let now = db.current_time_ns();
    db.gc_round_at(cycle, now)
}

#[test]
fn manual_gc_reove_stale_versions() {
    let mut db = Database::new_with_options(
        DatabaseOptions::default()
                .with_gc_interval(Duration::from_secs(3600))
                .with_cleanup_interval(Duration::from_secs(3600))
    );

    for i in 0..10 {
        let mut tx = db.transaction(true);
        tx.set("key", format!("v{}", i)).unwrap();
        tx.commit(&mut db).unwrap();
        db.release(tx);
    }

    db.run_gc();

    let mut tx = db.transaction(false);
    let current = tx.get(&db, "key").unwrap();
    assert!(current.is_some(), "Current value should exist after GC");
    assert_eq!(current.unwrap().as_ref(), b"v9", "Should have latest value");
    tx.cancel().unwrap();
}

#[test]
fn manual_gc_respects_active_transactions() {
    let mut db = Database::new_with_options(
        DatabaseOptions::default()
            .with_gc_interval(Duration::from_secs(3600))
            .with_cleanup_interval(Duration::from_secs(3600)),
    );

    // Create initial version
    let mut tx = db.transaction(true);
    tx.set("key", "v1").unwrap();
    tx.commit(&mut db).unwrap();
    db.release(tx);

    // Start long-lived read transaction
    let mut read_tx = db.transaction(false);
    let initial = read_tx.get(&db, "key").unwrap();
    assert_eq!(initial, Some(Bytes::from("v1")));

    // Update multiple times
    for i in 2..10 {
        let mut tx = db.transaction(true);
        tx.set("key", format!("v{}", i)).unwrap();
        tx.commit(&mut db).unwrap();
        db.release(tx);
    }

    // Run manual GC
    db.run_gc();

    // Active read transaction should still see original value
    let after_gc = read_tx.get(&db, "key").unwrap();
    assert_eq!(
        after_gc,
        Some(Bytes::from("v1")),
        "Active transaction should still see v1 after GC"
    );
}

#[test]
fn manual_gc_removes_deleted_keys() {
    let mut db = Database::new_with_options(
        DatabaseOptions::default()
            .with_gc_interval(Duration::from_secs(3600))
            .with_cleanup_interval(Duration::from_secs(3600)),
    );

    // Create and delete key
    let mut tx = db.transaction(true);
    tx.set("deleted_key", "value").unwrap();
    tx.commit(&mut db).unwrap();
    db.release(tx);

    let mut tx = db.transaction(true);
    tx.del("deleted_key").unwrap();
    tx.commit(&mut db).unwrap();
    db.release(tx);

    // Run manual GC
    db.run_gc();

    // Key should not exist
    let mut tx = db.transaction(false);
    assert!(tx.get(&db, "deleted_key").unwrap().is_none());
    tx.cancel().unwrap();
}

#[test]
fn background_gc_runs_automatically() {
    let mut db = Database::new_with_options(
        DatabaseOptions::default()
            .with_gc_interval(Duration::from_millis(100))
            .with_cleanup_interval(Duration::from_millis(100)),
    );

    // Create many versions quickly
    for i in 0..20 {
        let mut tx = db.transaction(true);
        tx.set("gc_key", format!("value_{}", i)).unwrap();
        tx.commit(&mut db).unwrap();
        db.release(tx);
    }

    // An incremental round, then a full one
    background_round(&mut db, 0);
    background_round(&mut db, 19);

    // Current value should still be available
    let mut tx = db.transaction(false);
    let val = tx.get(&db, "gc_key").unwrap();
    assert!(val.is_some());
    tx.cancel().unwrap();
}

#[test]
fn gc_handles_multiple_keys() {
    let mut db = Database::new_with_options(
        DatabaseOptions::default()
            .with_gc_interval(Duration::from_millis(100))
            .with_cleanup_interval(Duration::from_millis(100)),
    );

    // Create multiple keys with multiple versions
    for key_id in 0..10 {
        for version in 0..5 {
            let mut tx = db.transaction(true);
            tx.set(format!("key_{}", key_id), format!("v{}", version)).unwrap();
            tx.commit(&mut db).unwrap();
            db.release(tx);
        }
    }

    // An incremental round, then a full one
    background_round(&mut db, 0);
    background_round(&mut db, 19);

    // All keys should still have their latest values
    let mut tx = db.transaction(false);
    for key_id in 0..10 {
        let val = tx.get(&db, format!("key_{}", key_id)).unwrap();
        assert_eq!(val, Some(Bytes::from("v4")), "Key {} should have latest value", key_id);
    }
    tx.cancel().unwrap();
}

#[test]
fn gc_with_mixed_deletes() {
    let mut db = Database::new_with_options(
        DatabaseOptions::default()
            .with_gc_interval(Duration::from_millis(50))
            .with_cleanup_interval(Duration::from_millis(50)),
    );

    // Create some keys
    let mut tx = db.transaction(true);
    tx.set("keep1", "value1").unwrap();
    tx.set("keep2", "value2").unwrap();
    tx.set("delete1", "value").unwrap();
    tx.set("delete2", "value").unwrap();
    tx.commit(&mut db).unwrap();
    db.release(tx);

    // Delete some
    let mut tx = db.transaction(true);
    tx.del("delete1").unwrap();
    tx.del("delete2").unwrap();
    tx.commit(&mut db).unwrap();
    db.release(tx);

    // An incremental round, then a full one
    background_round(&mut db, 0);
    background_round(&mut db, 19);

    // Verify state
    let mut tx = db.transaction(false);
    assert_eq!(tx.get(&db, "keep1").unwrap(), Some(Bytes::from("value1")));
    assert_eq!(tx.get(&db, "keep2").unwrap(), Some(Bytes::from("value2")));
    assert!(tx.get(&db, "delete1").unwrap().is_none());
    assert!(tx.get(&db, "delete2").unwrap().is_none());
    tx.cancel().unwrap();
}

#[test]
fn transaction_cleanup_runs_automatically() {
    let mut db = Database::new_with_options(
        DatabaseOptions::default()
            .with_gc_interval(Duration::from_secs(3600))
            .with_cleanup_interval(Duration::from_millis(100)),
    );

    // Create and complete many transactions
    for i in 0..50 {
        let mut tx = db.transaction(true);
        tx.set(format!("key_{}", i), "value").unwrap();
        tx.commit(&mut db).unwrap();
        db.release(tx);
    }

    // An incremental round, then a full one
    background_round(&mut db, 0);
    background_round(&mut db, 19);

    // New transactions should work fine
    let mut tx = db.transaction(false);
    for i in 0..50 {
        assert!(tx.contains(&db, format!("key_{}", i)).unwrap());
    }
    tx.cancel().unwrap();
}

#[test]
fn manual_cleanup() {
    let mut db = Database::new_with_options(
        DatabaseOptions::default()
            .with_gc_interval(Duration::from_secs(3600))
            .with_cleanup_interval(Duration::from_secs(3600)), // Disable auto cleanup
    );

    // Create transactions
    for i in 0..20 {
        let mut tx = db.transaction(true);
        tx.set(format!("key_{}", i), "value").unwrap();
        tx.commit(&mut db).unwrap();
        db.release(tx);
    }

    // Run manual cleanup
    db.run_cleanup();

    // Should still work
    let mut tx = db.transaction(false);
    for i in 0..20 {
        assert!(tx.contains(&db, format!("key_{}", i)).unwrap());
    }
    tx.cancel().unwrap();
}

/// Four clients take turns, with collection in between.
#[test]
fn interleaved_gc_and_transactions() {
    let mut db = Database::new_with_options(
        DatabaseOptions::default()
            .with_gc_interval(Duration::from_millis(50))
            .with_cleanup_interval(Duration::from_millis(50)),
    );

    let num_clients = 4;
    let ops_per_client = 50;
    let mut cycle = 0;

    for op in 0..ops_per_client {
        for client in 0..num_clients {
            let key = format!("client_{}_key_{}", client, op % 10);
            let value = format!("value_{}_{}", client, op);

            let mut tx = db.transaction(true);
            tx.set(&key, &value).unwrap();
            tx.commit(&mut db).unwrap();
            db.release(tx);

            cycle = background_round(&mut db, cycle);

            let mut tx = db.transaction(false);
            assert_eq!(tx.get(&db, &key).unwrap(), Some(Bytes::from(value)));
            db.release(tx);
        }
    }

    let mut tx = db.transaction(false);
    for client in 0..num_clients {
        for key_id in 0..10 {
            let key = format!("client_{}_key_{}", client, key_id);
            let val = tx.get(&db, &key).unwrap();
            assert!(val.is_some(), "Key {} should exist", key);
        }
    }
    tx.cancel().unwrap();
}

#[test]
fn gc_with_only_deleted_keys() {
    let mut db = Database::new_with_options(
        DatabaseOptions::default()
            .with_gc_interval(Duration::from_millis(50))
            .with_cleanup_interval(Duration::from_millis(50)),
    );

    // Create and immediately delete
    let mut tx = db.transaction(true);
    for i in 0..10 {
        tx.set(format!("temp_{}", i), "value").unwrap();
    }
    tx.commit(&mut db).unwrap();
    db.release(tx);

    let mut tx = db.transaction(true);
    for i in 0..10 {
        tx.del(format!("temp_{}", i)).unwrap();
    }
    tx.commit(&mut db).unwrap();
    db.release(tx);

    // An incremental round, then a full one
    background_round(&mut db, 0);
    background_round(&mut db, 19);

    // All should be gone
    let mut tx = db.transaction(false);
    for i in 0..10 {
        assert!(tx.get(&db, format!("temp_{}", i)).unwrap().is_none());
    }
    tx.cancel().unwrap();
}

#[test]
fn gc_empty_database() {
    let mut db = Database::new_with_options(
        DatabaseOptions::default()
            .with_gc_interval(Duration::from_millis(50))
            .with_cleanup_interval(Duration::from_millis(50)),
    );

    // Run GC on empty database
    db.run_gc();
    db.run_cleanup();

    // Should work fine
    let mut tx = db.transaction(true);
    tx.set("key", "value").unwrap();
    tx.commit(&mut db).unwrap();
    db.release(tx);

    let mut tx = db.transaction(false);
    assert_eq!(tx.get(&db, "key").unwrap(), Some(Bytes::from("value")));
    tx.cancel().unwrap();
}

#[test]
fn gc_preserves_tombstones_for_active_readers() {
    let mut db = Database::new_with_options(
        DatabaseOptions::default()
            .with_gc_interval(Duration::from_millis(50))
            .with_cleanup_interval(Duration::from_millis(50)),
    );

    // Create and then delete a key
    let mut tx = db.transaction(true);
    tx.set("key", "original").unwrap();
    tx.commit(&mut db).unwrap();
    db.release(tx);

    // Start a read that sees the key
    let mut read_tx = db.transaction(false);
    assert_eq!(read_tx.get(&db, "key").unwrap(), Some(Bytes::from("original")));

    // Delete the key
    let mut tx = db.transaction(true);
    tx.del("key").unwrap();
    tx.commit(&mut db).unwrap();
    db.release(tx);

    // An incremental round, then a full one
    background_round(&mut db, 0);
    background_round(&mut db, 19);

    // Old reader should still see original value
    assert_eq!(
        read_tx.get(&db, "key").unwrap(),
        Some(Bytes::from("original")),
        "Reader should see value from its snapshot"
    );

    // New reader should see deletion
    let mut new_tx = db.transaction(false);
    assert!(new_tx.get(&db, "key").unwrap().is_none());
}
