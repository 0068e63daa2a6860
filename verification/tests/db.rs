use stupid_kv::Database;

#[test]
fn begin_tx() {
    let mut db = Database::new();
    db.transaction(false);
}

#[test]
fn finished_tx_not_writeable() {
    let mut db = Database::new();
    let mut tx = db.transaction(true);
    let res = tx.cancel();
    assert!(res.is_ok());
    let res = tx.put(&db, "test", "something");
    assert!(res.is_err());
    let res = tx.set("test", "something");
    assert!(res.is_err());
    let res = tx.del("test");
    assert!(res.is_err());
    let res = tx.commit(&mut db);
    assert!(res.is_err());
    let res = tx.cancel();
    assert!(res.is_err());
}

#[test]
fn cancelled_tx_is_cancelled() {
    let mut db = Database::new();
    let mut tx = db.transaction(true);
    tx.put(&db, "test", "something").unwrap();
    let res = tx.contains(&db, "test").unwrap();
    assert!(res);
    let res = tx.get(&db, "test").unwrap();
    assert_eq!(res.as_deref(), Some(b"something" as &[u8]));
    let res = tx.cancel();
    assert!(res.is_ok());
    let mut tx = db.transaction(false);
    let res = tx.contains(&db, "test").unwrap();
    assert!(!res);
    let res = tx.get(&db, "test").unwrap();
    assert_eq!(res, None);
    let res = tx.cancel();
    assert!(res.is_ok());
}

#[test]
fn committed_tx_is_committed() {
    let mut db = Database::new();
    let mut tx = db.transaction(true);
    tx.put(&db, "test", "something").unwrap();
    let res = tx.contains(&db, "test").unwrap();
    assert!(res);
    let res = tx.get(&db, "test").unwrap();
    assert_eq!(res.as_deref(), Some(b"something" as &[u8]));
    let res = tx.commit(&mut db);
    assert!(res.is_ok());
    let mut tx = db.transaction(false);
    let res = tx.contains(&db, "test").unwrap();
    assert!(res);
    let res = tx.get(&db, "test").unwrap();
    assert_eq!(res.as_deref(), Some(b"something" as &[u8]));
    let res = tx.cancel();
    assert!(res.is_ok());
}
