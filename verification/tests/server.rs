use stupid_kv::error::Error;
use stupid_kv::persistence::BatchStep;
use stupid_kv::server::{
    delete_handler, exists_handler, get_handler, insert_handler, map_kv_error, parse_port, ready,
    update_handler, Startup, DEFAULT_PORT, STATUS_CONFLICT, STATUS_INTERNAL_ERROR,
};
use stupid_kv::{Database, PersistenceError, PersistenceOptions};

fn setup() -> Database {
    Database::new()
}

fn insert(db: &mut Database, key: &str, value: &str) -> (u16, String, String) {
    match insert_handler(db, key.to_string(), value.to_string()) {
        Ok(w) => (200, w.key, w.value),
        Err(f) => (f.status, f.error, String::new()),
    }
}

fn update(db: &mut Database, key: &str, value: &str) -> (u16, String, String) {
    match update_handler(db, key.to_string(), value.to_string()) {
        Ok(w) => (200, w.key, w.value),
        Err(f) => (f.status, f.error, String::new()),
    }
}

fn get(db: &mut Database, key: &str) -> (u16, String, Option<String>) {
    match get_handler(db, key.to_string()) {
        Ok(g) => (200, g.key, g.value),
        Err(f) => (f.status, f.error, None),
    }
}

fn present(db: &mut Database, key: &str) -> (u16, String, bool) {
    match exists_handler(db, key.to_string()) {
        Ok(e) => (200, e.key, e.present),
        Err(f) => (f.status, f.error, false),
    }
}

fn delete(db: &mut Database, key: &str) -> (u16, String, Option<String>) {
    match delete_handler(db, key.to_string()) {
        Ok(g) => (200, g.key, g.value),
        Err(f) => (f.status, f.error, None),
    }
}

fn some(s: &str) -> Option<String> {
    Some(s.to_string())
}

#[test]
fn test_insert_key_successfully() {
    let mut app = setup();
    let (status, key, value) = insert(&mut app, "hello", "world");
    assert_eq!(status, 200);
    assert_eq!(key, "hello");
    assert_eq!(value, "world");
}

#[test]
fn test_insert_duplicate_key_returns_conflict() {
    let mut app = setup();
    let (status, _, _) = insert(&mut app, "dup", "first");
    assert_eq!(status, 200);

    let (status, error, _) = insert(&mut app, "dup", "second");
    assert_eq!(status, 409);
    assert!(error.contains("Key already exists"));
}

#[test]
fn test_update_non_existing_key() {
    let mut app = setup();
    let (status, key, value) = update(&mut app, "newkey", "newvalue");
    assert_eq!(status, 200);
    assert_eq!(key, "newkey");
    assert_eq!(value, "newvalue");

    let (status, _, value) = get(&mut app, "newkey");
    assert_eq!(status, 200);
    assert_eq!(value, some("newvalue"));
}

#[test]
fn test_update_existing_key() {
    let mut app = setup();
    let _ = insert(&mut app, "update", "v1");

    let (status, _, value) = update(&mut app, "update", "v2");
    assert_eq!(status, 200);
    assert_eq!(value, "v2");

    let (status, _, value) = get(&mut app, "update");
    assert_eq!(status, 200);
    assert_eq!(value, some("v2"));
}

#[test]
fn test_get_existing_key() {
    let mut app = setup();
    let _ = insert(&mut app, "existing", "data");

    let (status, key, value) = get(&mut app, "existing");
    assert_eq!(status, 200);
    assert_eq!(key, "existing");
    assert_eq!(value, some("data"));
}

#[test]
fn test_get_non_existing_key_returns_null() {
    let mut app = setup();
    let (status, key, value) = get(&mut app, "nonexistent");
    assert_eq!(status, 200);
    assert_eq!(key, "nonexistent");
    assert!(value.is_none());
}

#[test]
fn test_exists_true_for_existing_key() {
    let mut app = setup();
    let _ = insert(&mut app, "exists_key", "check");

    let (status, key, found) = present(&mut app, "exists_key");
    assert_eq!(status, 200);
    assert_eq!(key, "exists_key");
    assert_eq!(found, true);
}

#[test]
fn test_exists_false_for_non_existing_key() {
    let mut app = setup();
    let (status, key, found) = present(&mut app, "no_key");
    assert_eq!(status, 200);
    assert_eq!(key, "no_key");
    assert_eq!(found, false);
}

#[test]
fn test_delete_existing_key() {
    let mut app = setup();
    let _ = insert(&mut app, "del_key", "remove_me");

    let (status, key, value) = delete(&mut app, "del_key");
    assert_eq!(status, 200);
    assert_eq!(key, "del_key");
    assert_eq!(value, some("remove_me"));

    let (status, _, value) = get(&mut app, "del_key");
    assert_eq!(status, 200);
    assert!(value.is_none());
}

#[test]
fn test_delete_non_existing_key() {
    let mut app = setup();
    let (status, key, value) = delete(&mut app, "no_such_key");
    assert_eq!(status, 200);
    assert_eq!(key, "no_such_key");
    assert!(value.is_none());
}

#[test]
fn test_full_crud_flow() {
    let mut app = setup();
    assert_eq!(insert(&mut app, "flow", "initial").0, 200);

    let (status, _, value) = get(&mut app, "flow");
    assert_eq!(status, 200);
    assert_eq!(value, some("initial"));

    assert_eq!(update(&mut app, "flow", "updated").0, 200);

    let (status, _, value) = get(&mut app, "flow");
    assert_eq!(status, 200);
    assert_eq!(value, some("updated"));

    let (status, _, found) = present(&mut app, "flow");
    assert_eq!(status, 200);
    assert_eq!(found, true);

    assert_eq!(delete(&mut app, "flow").0, 200);

    let (status, _, found) = present(&mut app, "flow");
    assert_eq!(status, 200);
    assert_eq!(found, false);

    let (status, _, value) = get(&mut app, "flow");
    assert_eq!(status, 200);
    assert!(value.is_none());
}

#[test]
fn test_mixed_keys_isolation() {
    let mut app = setup();
    let keys = ["alpha", "beta", "gamma"];
    for key in &keys {
        assert_eq!(insert(&mut app, key, &format!("val_{}", key)).0, 200);
    }

    for key in &keys {
        let (status, _, value) = get(&mut app, key);
        assert_eq!(status, 200);
        assert_eq!(value, Some(format!("val_{}", key)));
    }

    assert_eq!(update(&mut app, "beta", "val_beta_updated").0, 200);

    let (status, _, value) = get(&mut app, "alpha");
    assert_eq!(status, 200);
    assert_eq!(value, some("val_alpha"));

    let (status, _, value) = get(&mut app, "beta");
    assert_eq!(status, 200);
    assert_eq!(value, some("val_beta_updated"));
}

#[test]
fn a_refused_insert_changes_nothing() {
    let mut app = setup();
    insert(&mut app, "dup", "first");
    insert(&mut app, "dup", "second");
    assert_eq!(get(&mut app, "dup").2, some("first"));
}

#[test]
fn a_deleted_key_can_be_inserted_again() {
    let mut app = setup();
    insert(&mut app, "k", "one");
    delete(&mut app, "k");
    assert_eq!(insert(&mut app, "k", "two").0, 200);
    assert_eq!(get(&mut app, "k").2, some("two"));
}

#[test]
fn bytes_that_are_no_text_are_answered_with_replacements() {
    let mut app = setup();
    let mut tx = app.transaction(true);
    tx.set("raw", vec![b'a', 0xff, b'b']).unwrap();
    tx.commit(&mut app).unwrap();
    app.release(tx);
    assert_eq!(get(&mut app, "raw").2, some("a\u{fffd}b"));
}

#[test]
fn text_comes_back_as_it_was_written() {
    let mut app = setup();
    let text = "stra\u{df}e \u{1f511} \u{6587}";
    assert_eq!(insert(&mut app, "k", text).2, text);
    insert(&mut app, "other", "x");
    assert_eq!(get(&mut app, "k").2, some(text));
    assert_eq!(delete(&mut app, "k").2, some(text));
    assert_eq!(get(&mut app, "k").2, None);
    assert_eq!(get(&mut app, "other").2, some("x"));
}

#[test]
fn requests_hand_their_writes_to_a_log_that_is_written_later() {
    let popts = PersistenceOptions::new("base").with_async_aol(std::time::Duration::from_secs(1));
    let mut app = Database::new_with_persistence(Default::default(), popts, None, None).unwrap();
    insert(&mut app, "a", "1");
    get(&mut app, "a");
    insert(&mut app, "a", "2");
    delete(&mut app, "a");
    let mut p = app.take_persistence().unwrap();
    let mut batch = Vec::new();
    while p.fill_batch(&mut batch) != BatchStep::Flush {}
    assert_eq!(batch.len(), 2);
    assert!(batch[0].version < batch[1].version);
    assert_eq!(batch[0].writeset.get(b"a"), Some(&Some(bytes::Bytes::from("1"))));
    assert_eq!(batch[1].writeset.get(b"a"), Some(&None));
}

#[test]
fn requests_leave_no_transaction_open() {
    let mut app = setup();
    insert(&mut app, "k", "v");
    get(&mut app, "k");
    update(&mut app, "k", "w");
    delete(&mut app, "k");
    app.run_cleanup();
    app.run_gc();
    assert!(ready(&app));
    assert_eq!(get(&mut app, "k").2, None);
}

#[test]
fn a_database_that_logs_on_commit_is_not_served() {
    let popts = PersistenceOptions::new("base").with_sync_aol(std::time::Duration::from_secs(1));
    let db = Database::new_with_persistence(Default::default(), popts, None, None).unwrap();
    assert!(!ready(&db));
    assert!(ready(&Database::new()));
}

#[test]
fn statuses_of_errors() {
    let status = |e: Error| map_kv_error(e).status;
    assert_eq!(status(Error::KeyWriteConflict), STATUS_CONFLICT);
    assert_eq!(status(Error::KeyReadConflict), 409);
    assert_eq!(status(Error::KeyAlreadyExists), 409);
    assert_eq!(status(Error::TxClosed), STATUS_INTERNAL_ERROR);
    assert_eq!(status(Error::TxNotWritable), 500);
    let failed = PersistenceError::LockFailed("x".to_string());
    assert_eq!(status(Error::TxCommitNotPersisted(failed)), 500);
    assert_eq!(map_kv_error(Error::TxClosed).error, "transaction is closed");
}

fn port_of(args: &[&str], setting: Option<&str>) -> Option<u16> {
    let args: Vec<String> = args.iter().map(|a| a.to_string()).collect();
    match parse_port(&args, setting.map(|s| s.to_string())) {
        Startup::Help => None,
        Startup::Listen(port) => Some(port),
    }
}

#[test]
fn the_port_comes_from_arguments_before_the_environment() {
    assert_eq!(port_of(&["server"], None), Some(DEFAULT_PORT));
    assert_eq!(port_of(&["server"], None), Some(3000));
    assert_eq!(port_of(&["server"], Some("8080")), Some(8080));
    assert_eq!(port_of(&["server", "--port", "9000"], Some("8080")), Some(9000));
    assert_eq!(port_of(&["server", "x", "--port", "9000"], None), Some(9000));
    assert_eq!(port_of(&[], Some("1")), Some(1));
}

#[test]
fn ports_that_are_no_numbers_are_passed_over() {
    assert_eq!(port_of(&["server", "--port"], Some("8080")), Some(8080));
    assert_eq!(port_of(&["server", "--port", "abc"], None), Some(3000));
    assert_eq!(port_of(&["server", "--port", "65536"], None), Some(3000));
    assert_eq!(port_of(&["server", "--port", "65535"], None), Some(65535));
    assert_eq!(port_of(&["server", "--port", "-1"], None), Some(3000));
    assert_eq!(port_of(&["server", "--port", "+81"], None), Some(81));
    assert_eq!(port_of(&["server", "--port", ""], None), Some(3000));
    assert_eq!(port_of(&["server", "--port", "x", "--port", "7"], None), Some(7));
    assert_eq!(port_of(&["server"], Some("nonsense")), Some(3000));
}

#[test]
fn help_is_asked_for() {
    assert_eq!(port_of(&["server", "--help"], None), None);
    assert_eq!(port_of(&["server", "--help", "--port", "1"], None), None);
    assert_eq!(port_of(&["server", "--port", "1", "--help"], None), Some(1));
    assert_eq!(port_of(&["server", "--port", "--help"], None), None);
    assert_eq!(port_of(&["--help"], None), Some(3000));
}
