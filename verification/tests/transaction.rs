use stupid_kv::error::Error;
use stupid_kv::Database;

#[test]
fn mvcc_non_conflicting_keys_should_succeed() {
    let mut db = Database::new();
    let mut tx1 = db.transaction(true);
    let mut tx2 = db.transaction(true);

    assert!(tx1.get(&db, "key1").unwrap().is_none());
    tx1.set("key1", "value1").unwrap();
    assert!(tx1.commit(&mut db).is_ok());
    assert!(tx2.get(&db, "key2").unwrap().is_none());
    tx2.set("key2", "value2").unwrap();
    assert!(tx2.commit(&mut db).is_ok());
}

#[test]
fn mvcc_conflicting_blind_writes_should_error() {
    let mut db = Database::new();
    let mut tx1 = db.transaction(true);
    let mut tx2 = db.transaction(true);

    assert_eq!(tx1.commit_point(), 0);
    assert_eq!(tx2.commit_point(), 0);

    assert_eq!(
        tx1.version(),
        tx2.version());
    assert!(tx1.get(&db, "key1").unwrap().is_none());
    tx1.set("key1", "value1").unwrap();
    assert!(tx2.get(&db, "key1").unwrap().is_none());
    tx2.set("key1", "value2").unwrap();
    assert!(tx1.commit(&mut db).is_ok());
    let res = tx2.commit(&mut db);
    assert!(res.is_err());

    assert!(matches!(res.unwrap_err(), Error::KeyWriteConflict));

    let mut tx3 = db.transaction(true);
    assert_eq!(tx3.get(&db, "key1").unwrap(), Some("value1".into()));
    tx3.set("key1", "value3").unwrap();
    assert!(tx3.commit(&mut db).is_ok());
}

#[test]
fn mvcc_si_conflicting_read_keys_should_succeed() {
    let mut db = Database::new();
    let mut tx1 = db.transaction(true).with_snapshot_isolation();
    let mut tx2 = db.transaction(true).with_snapshot_isolation();

    assert_eq!(tx1.commit_point(), 0);
    assert_eq!(tx2.commit_point(), 0);

    assert_eq!(
        tx1.version(),
        tx2.version());

    assert!(tx1.get(&db, "key1").unwrap().is_none());
    tx1.set("key1", "value1").unwrap();
    assert!(tx1.commit(&mut db).is_ok());
    assert!(tx2.get(&db, "key1").unwrap().is_none());
    tx2.set("key2", "value2").unwrap();
    assert!(tx2.commit(&mut db).is_ok());
    let mut commit_id = db.transaction_commit_id();
    assert_eq!(commit_id, 2);
}

#[test]
fn mvcc_conflicting_read_deleted_keys_should_error() {
    let mut db = Database::new();
    let mut tx1 = db.transaction(true);
    tx1.set("key", "value1").unwrap();
    assert!(tx1.commit(&mut db).is_ok());
    let mut tx2 = db.transaction(true);
    let mut tx3 = db.transaction(true);
    assert!(tx2.get(&db, "key").unwrap().is_some());
    tx2.del("key").unwrap();
    assert!(tx2.commit(&mut db).is_ok());
    assert_eq!(tx3.get(&db, "key").unwrap(), Some("value1".into()));
    tx3.set("key", "value2").unwrap();
    let res = tx3.commit(&mut db);
    assert!(res.is_err());

    assert!(matches!(res.unwrap_err(), Error::KeyWriteConflict));
}

#[test]
fn mvcc_transaction_queue_correctness() {
    let mut db = Database::new();
    let mut tx1 = db.transaction(true);
    tx1.set("key1", "value1").unwrap();
    assert!(tx1.commit(&mut db).is_ok());
    db.release(tx1);
    let mut tx2 = db.transaction(true);
    tx2.set("key2", "value2").unwrap();
    assert!(tx2.commit(&mut db).is_ok());
    db.release(tx2);
    let mut tx3 = db.transaction(true);
    tx3.set("key", "value").unwrap();
    let mut tx4 = db.transaction(true);
    tx4.set("key", "value").unwrap();
    assert!(tx3.commit(&mut db).is_ok());
    assert!(tx4.commit(&mut db).is_err());
    db.release(tx3);
    db.release(tx4);
    let mut tx5 = db.transaction(true);
    tx5.set("key", "other").unwrap();
    let mut tx6 = db.transaction(true);
    tx6.set("key", "other").unwrap();
    assert!(tx5.commit(&mut db).is_ok());
    assert!(tx6.commit(&mut db).is_err());
    db.release(tx5);
    db.release(tx6);
    let mut tx7 = db.transaction(true);
    tx7.set("key", "change").unwrap();
    let mut tx8 = db.transaction(true);
    tx8.set("key", "change").unwrap();
    assert!(tx7.commit(&mut db).is_ok());
    assert!(tx7.commit(&mut db).is_err());
    db.release(tx7);
    db.release(tx8);
}

#[test]
fn test_snapshot_isolation() {
    let mut db = Database::new();

    let key1 = "key1";
    let key2 = "key2";
    let value1 = "baz";
    let value2 = "bar";

    // no conflict
    {
        let mut txn1 = db.transaction(true);
        let mut txn2 = db.transaction(true);

        txn1.set(key1, value1).unwrap();
        assert!(txn1.commit(&mut db).is_ok());

        assert!(txn2.get(&db, key2).unwrap().is_none());
        txn2.set(key2, value2).unwrap();
        assert!(txn2.commit(&mut db).is_ok());
    }

    // conflict when the write key was updated by another transaction
    {
        let mut txn1 = db.transaction(true);
        let mut txn2 = db.transaction(true);

        txn1.set(key1, value1).unwrap();
        assert!(txn1.commit(&mut db).is_ok());

        assert!(txn2.get(&db, key1).is_ok());
        txn2.set(key1, value2).unwrap();
        assert!(txn2.commit(&mut db).is_err());
    }

    // blind writes should not succeed
    {
        let mut txn1 = db.transaction(true);
        let mut txn2 = db.transaction(true);

        txn1.set(key1, value1).unwrap();
        txn2.set(key1, value2).unwrap();

        txn1.commit(&mut db).unwrap();
        assert!(txn2.commit(&mut db).is_err());
    }

    // conflict when the read key was updated by another transaction
    {
        let key = "key3";

        let mut txn1 = db.transaction(true);
        let mut txn2 = db.transaction(true);

        txn1.set(key, value1).unwrap();
        txn1.commit(&mut db).unwrap();

        assert!(txn2.get(&db, key).unwrap().is_none());
        txn2.set(key, value1).unwrap();
        assert!(txn2.commit(&mut db).is_err());
    }

}

#[test]
fn test_serializable_snapshot_isolation() {
    let mut db = Database::new();

    let key1 = "key1";
    let key2 = "key2";
    let value1 = "baz";
    let value2 = "bar";

    // no conflict
    {
        let mut txn1 = db.transaction(true).with_serializable_snapshot_isolation();
        let mut txn2 = db.transaction(true).with_serializable_snapshot_isolation();

        txn1.set(key1, value1).unwrap();
        assert!(txn1.commit(&mut db).is_ok());

        assert!(txn2.get(&db, key2).unwrap().is_none());
        txn2.set(key2, value2).unwrap();
        assert!(txn2.commit(&mut db).is_ok());
    }

    // conflict when the write key was updated by another transaction
    {
        let mut txn1 = db.transaction(true).with_serializable_snapshot_isolation();
        let mut txn2 = db.transaction(true).with_serializable_snapshot_isolation();

        txn1.set(key1, value1).unwrap();
        assert!(txn1.commit(&mut db).is_ok());

        assert!(txn2.get(&db, key1).is_ok());
        txn2.set(key1, value2).unwrap();
        assert!(txn2.commit(&mut db).is_err());
    }

    // blind writes should not succeed
    {
        let mut txn1 = db.transaction(true).with_serializable_snapshot_isolation();
        let mut txn2 = db.transaction(true).with_serializable_snapshot_isolation();

        txn1.set(key1, value1).unwrap();
        txn2.set(key1, value2).unwrap();

        txn1.commit(&mut db).unwrap();
        assert!(txn2.commit(&mut db).is_err());
    }

    // conflict when the read key was updated by another transaction
    {
        let key = "key3";

        let mut txn1 = db.transaction(true).with_serializable_snapshot_isolation();
        let mut txn2 = db.transaction(true).with_serializable_snapshot_isolation();

        txn1.set(key, value1).unwrap();
        txn1.commit(&mut db).unwrap();

        assert!(txn2.get(&db, key).unwrap().is_none());
        txn2.set(key, value1).unwrap();
        assert!(txn2.commit(&mut db).is_err());
    }

    {
        let key = "key4";

        let mut txn1 = db.transaction(true).with_serializable_snapshot_isolation();
        txn1.set(key, value1).unwrap();
        txn1.commit(&mut db).unwrap();

        let mut txn2 = db.transaction(true).with_serializable_snapshot_isolation();
        let mut txn3 = db.transaction(true).with_serializable_snapshot_isolation();

        txn2.del(key).unwrap();
        assert!(txn2.commit(&mut db).is_ok());

        assert!(txn3.get(&db, key).is_ok());
        txn3.set(key1, value2).unwrap();
        assert!(txn3.commit(&mut db).is_err());
    }
}

fn new_db() -> Database {
    let mut db = Database::new();
    let key1 = "k1";
    let key2 = "k2";
    let value1 = "v1";
    let value2 = "v2";
    // Start a new read-write transaction (txn)
    let mut txn = db.transaction(true);
    txn.set(key1, value1).unwrap();
    txn.set(key2, value2).unwrap();
    txn.commit(&mut db).unwrap();
    db
}

// G0: Write Cycles (dirty writes)
#[test]
fn test_anomaly_g0() {
    let mut db = new_db();
    let key1 = "k1";
    let key2 = "k2";
    let value3 = "v3";
    let value4 = "v4";
    let value5 = "v5";
    let value6 = "v6";

    {
        let mut txn1 = db.transaction(true);
        let mut txn2 = db.transaction(true);

        assert_eq!(txn1.get(&db, key1).unwrap(), Some("v1".into()));
        assert_eq!(txn1.get(&db, key2).unwrap(), Some("v2".into()));
        assert!(txn2.get(&db, key1).is_ok());
        assert!(txn2.get(&db, key2).is_ok());

        txn1.set(key1, value3).unwrap();
        txn2.set(key1, value4).unwrap();

        txn1.set(key2, value5).unwrap();

        txn1.commit(&mut db).unwrap();

        txn2.set(key2, value6).unwrap();
        assert!(txn2.commit(&mut db).is_err());
    }

    {
        let mut txn3 = db.transaction(true);
        let val1 = txn3.get(&db, key1).unwrap().unwrap();
        assert_eq!(val1, value3);
        let val2 = txn3.get(&db, key2).unwrap().unwrap();
        assert_eq!(val2, value5);
    }
}
