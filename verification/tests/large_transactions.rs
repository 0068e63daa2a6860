//!

use bytes::Bytes;
use stupid_kv::Database;

#[test]
fn transaction_with_thousands_of_keys() {
    let mut db = Database::new();

    let num_keys = 10_000;

    let mut tx = db.transaction(true);
    for i in 0..num_keys {
        let key = format!("key_{:06}", i);
        let value = format!("value_{}", i);
        tx.set(key, value).unwrap();
    }
    tx.commit(&mut db).unwrap();

    let mut tx = db.transaction(false);

    assert_eq!(tx.get(&db, "key_000000").unwrap(), Some(Bytes::from("value_0")));
    assert_eq!(tx.get(&db, "key_005000").unwrap(), Some(Bytes::from("value_5000")));
    assert_eq!(tx.get(&db, "key_009999").unwrap(), Some(Bytes::from("value_9999")));
}

#[test]
fn large_value_handling() {
    let mut db = Database::new();

    let sizes = [1024, 10 * 1024, 100 * 1024, 1024 * 1024];

    let mut tx = db.transaction(true);
    for (i, size) in sizes.iter().enumerate() {
        let key = format!("large_key_{}", i);
        let value = vec![b'x'; *size];
        tx.set(key, value).unwrap();
    }
    tx.commit(&mut db).unwrap();

    let mut tx = db.transaction(false);
    for (i, expected_size) in sizes.iter().enumerate() {
        let key = format!("large_key_{}", i);
        let value = tx.get(&db, &key).unwrap().expect("Value should exist");
        assert_eq!(value.len(), *expected_size, "Value {} should be {} bytes", i, expected_size);
        assert!(value.iter().all(|&b| b == b'x'), "All bytes should be 'x'");
    }
}
