use bytes::Bytes;
use std::sync::Arc;
use std::time::Duration;
use stupid_kv::bloom::BloomFilter;
use stupid_kv::error::Error;
use stupid_kv::inner::{
    earliest_active, register_counter, release_counter, try_register, Inner,
};
use stupid_kv::kv::{compare, IntoBytes, Order};
use stupid_kv::oracle::Oracle;
use stupid_kv::pool::Pool;
use stupid_kv::queue::{Commit, Merge};
use stupid_kv::tx::{backoff, Backoff, IsolationLevel, TransactionInner};
use stupid_kv::versions::{IndexOrUpdate, Version, Versions};
use stupid_kv::writeset::WriteSet;
use stupid_kv::{Database, DatabaseOptions, PersistenceError, Transaction};

fn bytes(s: &str) -> Bytes {
    Bytes::copy_from_slice(s.as_bytes())
}

fn some(s: &str) -> Option<Bytes> {
    Some(bytes(s))
}

fn set_of(list: &[(&str, Option<&str>)]) -> Arc<WriteSet> {
    let mut w = WriteSet::new();
    for (k, v) in list {
        w.insert(bytes(k), v.map(bytes));
    }
    Arc::new(w)
}

fn write(db: &mut Database, key: &str, value: Option<&str>) {
    let mut tx = db.transaction(true);
    match value {
        Some(v) => tx.set(key, v).unwrap(),
        None => tx.del(key).unwrap(),
    }
    tx.commit(db).unwrap();
    db.release(tx);
}

fn read(db: &mut Database, key: &str) -> Option<Bytes> {
    let mut tx = db.transaction(false);
    let r = tx.get(db, key).unwrap();
    db.release(tx);
    r
}

#[test]
fn an_open_transaction_reads_the_same_whatever_others_do() {
    let mut db = Database::new();
    write(&mut db, "k", Some("old"));
    let mut reader = db.transaction(false);
    assert_eq!(reader.get(&db, "k").unwrap(), some("old"));
    write(&mut db, "k", Some("new"));
    assert_eq!(reader.get(&db, "k").unwrap(), some("old"));
    write(&mut db, "k", None);
    db.run_cleanup();
    db.run_gc();
    assert_eq!(reader.get(&db, "k").unwrap(), some("old"));
    db.release(reader);
    db.run_gc();
    assert_eq!(read(&mut db, "k"), None);
}

#[test]
fn uncommitted_writes_are_seen_by_their_own_transaction_alone() {
    let mut db = Database::new();
    let mut a = db.transaction(true);
    let mut b = db.transaction(true);
    a.set("k", "mine").unwrap();
    assert_eq!(a.get(&db, "k").unwrap(), some("mine"));
    assert!(a.contains(&db, "k").unwrap());
    assert_eq!(b.get(&db, "k").unwrap(), None);
    a.cancel().unwrap();
    assert_eq!(read(&mut db, "k"), None);
}

#[test]
fn a_transaction_sees_its_own_deletion() {
    let mut db = Database::new();
    write(&mut db, "k", Some("v"));
    let mut tx = db.transaction(true);
    tx.del("k").unwrap();
    assert_eq!(tx.get(&db, "k").unwrap(), None);
    assert!(!tx.contains(&db, "k").unwrap());
    tx.put(&db, "k", "again").unwrap();
    assert_eq!(tx.get(&db, "k").unwrap(), some("again"));
    assert!(matches!(tx.put(&db, "k", "more"), Err(Error::KeyAlreadyExists)));
    tx.commit(&mut db).unwrap();
    assert_eq!(read(&mut db, "k"), some("again"));
}

#[test]
fn put_wants_a_key_without_a_value() {
    let mut db = Database::new();
    write(&mut db, "k", Some("v"));
    let mut tx = db.transaction(true);
    assert!(matches!(tx.put(&db, "k", "w"), Err(Error::KeyAlreadyExists)));
    tx.put(&db, "l", "w").unwrap();
    assert!(matches!(tx.put(&db, "l", "w"), Err(Error::KeyAlreadyExists)));
    tx.commit(&mut db).unwrap();
    assert_eq!(read(&mut db, "k"), some("v"));
    assert_eq!(read(&mut db, "l"), some("w"));
}

#[test]
fn transactions_that_only_read_cannot_write() {
    let mut db = Database::new();
    let mut tx = db.transaction(false);
    assert!(matches!(tx.set("k", "v"), Err(Error::TxNotWritable)));
    assert!(matches!(tx.put(&db, "k", "v"), Err(Error::TxNotWritable)));
    assert!(matches!(tx.del("k"), Err(Error::TxNotWritable)));
    assert!(tx.commit(&mut db).is_ok());
    assert!(tx.closed());
}

#[test]
fn closed_transactions_answer_nothing() {
    let mut db = Database::new();
    let mut tx = db.transaction(true);
    assert!(!tx.closed());
    tx.commit(&mut db).unwrap();
    assert!(tx.closed());
    assert!(matches!(tx.get(&db, "k"), Err(Error::TxClosed)));
    assert!(matches!(tx.contains(&db, "k"), Err(Error::TxClosed)));
    assert!(matches!(tx.set("k", "v"), Err(Error::TxClosed)));
    assert!(matches!(tx.put(&db, "k", "v"), Err(Error::TxClosed)));
    assert!(matches!(tx.del("k"), Err(Error::TxClosed)));
    assert!(matches!(tx.commit(&mut db), Err(Error::TxClosed)));
    assert!(matches!(tx.cancel(), Err(Error::TxClosed)));
}

#[test]
fn an_empty_commit_takes_no_number() {
    let mut db = Database::new();
    let mut tx = db.transaction(true);
    tx.commit(&mut db).unwrap();
    assert_eq!(db.transaction_commit_id(), 0);
    write(&mut db, "k", Some("v"));
    assert_eq!(db.transaction_commit_id(), 1);
}

#[test]
fn a_refused_commit_leaves_no_trace_but_its_number() {
    let mut db = Database::new();
    let mut a = db.transaction(true);
    let mut b = db.transaction(true);
    a.set("k", "a").unwrap();
    b.set("k", "b").unwrap();
    a.commit(&mut db).unwrap();
    assert!(matches!(b.commit(&mut db), Err(Error::KeyWriteConflict)));
    assert!(b.closed());
    assert_eq!(db.transaction_commit_id(), 2);
    assert_eq!(read(&mut db, "k"), some("a"));
    // Later commits do not clash with the refused one.
    write(&mut db, "k", Some("c"));
    assert_eq!(read(&mut db, "k"), some("c"));
}

#[test]
fn write_skew_is_allowed_or_refused() {
    let run = |ssi: bool| {
        let mut db = Database::new();
        let begin = |db: &mut Database| -> Transaction {
            let tx = db.transaction(true);
            if ssi {
                tx.with_serializable_snapshot_isolation()
            } else {
                tx.with_serializable_snapshot_isolation().with_snapshot_isolation()
            }
        };
        let mut setup = db.transaction(true);
        setup.set("alice_on_call", "true").unwrap();
        setup.set("bob_on_call", "true").unwrap();
        setup.commit(&mut db).unwrap();
        let mut alice = begin(&mut db);
        let mut bob = begin(&mut db);
        assert_eq!(alice.get(&db, "bob_on_call").unwrap(), some("true"));
        alice.set("alice_on_call", "false").unwrap();
        assert_eq!(bob.get(&db, "alice_on_call").unwrap(), some("true"));
        bob.set("bob_on_call", "false").unwrap();
        (alice.commit(&mut db), bob.commit(&mut db))
    };
    assert!(matches!(run(false), (Ok(()), Ok(()))));
    assert!(matches!(run(true), (Ok(()), Err(Error::KeyReadConflict))));
}

#[test]
fn the_first_record_that_clashes_decides() {
    let mut db = Database::new();
    let mut tx = db.transaction(true).with_serializable_snapshot_isolation();
    tx.get(&db, "r").unwrap();
    tx.set("w", "mine").unwrap();
    write(&mut db, "r", Some("1"));
    write(&mut db, "w", Some("2"));
    assert!(matches!(tx.commit(&mut db), Err(Error::KeyReadConflict)));

    let mut tx = db.transaction(true).with_serializable_snapshot_isolation();
    tx.get(&db, "r").unwrap();
    tx.set("w", "mine").unwrap();
    write(&mut db, "w", Some("3"));
    write(&mut db, "r", Some("4"));
    assert!(matches!(tx.commit(&mut db), Err(Error::KeyWriteConflict)));
}

#[test]
fn reads_of_own_writes_are_not_checked() {
    let mut db = Database::new();
    let mut tx = db.transaction(true).with_serializable_snapshot_isolation();
    tx.set("k", "mine").unwrap();
    tx.get(&db, "k").unwrap();
    tx.contains(&db, "k").unwrap();
    write(&mut db, "other", Some("1"));
    assert!(tx.commit(&mut db).is_ok());
}

#[test]
fn cleaning_the_commit_queue_changes_no_outcome() {
    for clean in [false, true] {
        let mut db = Database::new();
        write(&mut db, "k", Some("0"));
        let mut tx = db.transaction(true);
        tx.set("k", "mine").unwrap();
        let mut free = db.transaction(true);
        free.set("j", "mine").unwrap();
        write(&mut db, "k", Some("1"));
        if clean {
            db.run_cleanup();
        }
        assert!(matches!(tx.commit(&mut db), Err(Error::KeyWriteConflict)));
        assert!(free.commit(&mut db).is_ok());
    }
}

#[test]
fn versions_ascend_even_where_the_clock_stands_still() {
    let mut db = Database::new();
    let mut last = 0;
    for i in 0..5 {
        let mut tx = db.transaction(true);
        assert!(tx.version() > last || i == 0);
        last = tx.version();
        tx.set("k", "v").unwrap();
        tx.commit_at(&mut db, 1).unwrap();
        db.release(tx);
        let tx = db.transaction(false);
        assert_eq!(tx.version(), last + 1);
        db.release(tx);
    }
    let mut tx = db.transaction(true);
    let ahead = last + 1_000_000;
    tx.set("k", "w").unwrap();
    tx.commit_at(&mut db, ahead).unwrap();
    db.release(tx);
    assert_eq!(db.transaction(false).version(), ahead);
}

#[test]
fn released_transactions_are_reset_before_they_are_used_again() {
    let mut db = Database::new();
    let mut tx = db.transaction(true).with_serializable_snapshot_isolation();
    tx.get(&db, "k").unwrap();
    tx.set("k", "v").unwrap();
    db.release(tx);
    write(&mut db, "k", Some("w"));
    let mut tx = db.transaction(false);
    assert!(!tx.closed());
    assert_eq!(tx.commit_point(), 1);
    assert_eq!(tx.get(&db, "k").unwrap(), some("w"));
    assert!(matches!(tx.set("k", "v"), Err(Error::TxNotWritable)));
    db.release(tx);
    let mut tx = db.transaction(true);
    tx.set("x", "y").unwrap();
    write(&mut db, "k", Some("z"));
    assert!(tx.commit(&mut db).is_ok());
}

#[test]
fn pools_of_any_size_work() {
    for pool_size in [0, 1, 2, 100_000] {
        let mut db = Database::new_with_options(DatabaseOptions { pool_size, ..Default::default() });
        let a = db.transaction(false);
        let b = db.transaction(false);
        db.release(a);
        db.release(b);
        write(&mut db, "k", Some("v"));
        assert_eq!(read(&mut db, "k"), some("v"));
    }
}

#[test]
fn a_pool_hands_out_what_it_keeps() {
    let mut inner = Inner::new(&DatabaseOptions::default());
    let mut pool = Pool::new(1);
    let mut a = pool.get(&mut inner, true);
    let b = pool.get(&mut inner, false);
    a.set("k", "v").unwrap();
    inner.release(a.commit_point(), a.version());
    inner.release(b.commit_point(), b.version());
    pool.put(a);
    pool.put(b);
    let mut again = pool.get(&mut inner, true);
    assert_eq!(again.get(&inner, "k").unwrap(), None);
}

#[test]
fn garbage_is_collected_and_nothing_else() {
    let mut db = Database::new();
    write(&mut db, "k", Some("1"));
    write(&mut db, "k", Some("2"));
    write(&mut db, "d", Some("1"));
    write(&mut db, "d", None);
    let now = db.current_time_ns();
    assert_eq!(db.gc_round_at(0, now), 1);
    assert_eq!(read(&mut db, "k"), some("2"));
    assert_eq!(read(&mut db, "d"), None);
    db.run_gc_at(now);
    assert_eq!(read(&mut db, "k"), some("2"));
    assert_eq!(db.gc_round_at(u64::MAX, now), 0);
}

#[test]
fn the_store_holds_what_was_collected_no_more() {
    let mut inner = Inner::new(&DatabaseOptions::default());
    for (v, x) in [(10, "1"), (20, "2"), (30, "3")] {
        inner.write_key(&bytes("k"), v, &some(x));
    }
    inner.write_key(&bytes("d"), 10, &some("1"));
    inner.write_key(&bytes("d"), 20, &None);
    assert_eq!(inner.fetch_in_datastore(b"k", 15), some("1"));
    assert_eq!(inner.fetch_in_datastore(b"k", 9), None);
    inner.run_gc_full(25);
    assert_eq!(inner.fetch_in_datastore(b"k", 15), None);
    assert_eq!(inner.fetch_in_datastore(b"k", 25), some("2"));
    assert_eq!(inner.fetch_in_datastore(b"k", 30), some("3"));
    assert!(inner.exists_in_datastore(b"k", 25));
    assert!(!inner.exists_in_datastore(b"d", 25));
    let entries = inner.entries();
    assert_eq!(entries.len(), 1);
    assert_eq!(entries[0].0, bytes("k"));
    assert_eq!(entries[0].1.all_versions(), vec![(20, some("2")), (30, some("3"))]);
}

#[test]
fn a_first_write_that_deletes_starts_a_chain() {
    let mut inner = Inner::new(&DatabaseOptions::default());
    inner.write_key(&bytes("d"), 10, &None);
    assert_eq!(inner.entries()[0].1.all_versions(), vec![(10, None)]);
    inner.run_gc_full(10);
    assert!(inner.entries().is_empty());
}

#[test]
fn dirty_keys_are_collected_once() {
    let mut inner = Inner::new(&DatabaseOptions::default());
    inner.write_all(10, &set_of(&[("a", Some("1")), ("b", Some("1"))]));
    inner.write_all(20, &set_of(&[("a", Some("2"))]));
    inner.run_gc_dirty_inner(20);
    assert_eq!(inner.entries()[0].1.all_versions(), vec![(20, some("2"))]);
    inner.write_key(&bytes("a"), 30, &some("3"));
    inner.run_gc_dirty_inner(30);
    assert_eq!(inner.entries()[0].1.len(), 2);
}

#[test]
fn a_collection_stays_below_open_transactions() {
    let mut inner = Inner::new(&DatabaseOptions::default());
    let start = inner.timestamp();
    let (commit, version) = inner.register();
    assert_eq!((commit, version), (0, start));
    assert_eq!(inner.compute_cleanup_ts_at(u64::MAX), start);
    assert_eq!(inner.compute_cleanup_ts_at(5), 5);
    assert_eq!(inner.gc_floor(), start);
    assert_eq!(inner.earlist_active_version(7), start);
    assert_eq!(inner.earliest_active_commit(7), 0);
    inner.release(commit, version);
    assert_eq!(inner.earlist_active_version(7), 7);
    assert_eq!(inner.compute_cleanup_ts_at(u64::MAX), start);
    assert!(inner.can_begin());
    assert!(inner.can_commit());
}

#[test]
fn records_of_commits_are_cleaned_below_the_oldest_transaction() {
    let mut inner = Inner::new(&DatabaseOptions::default());
    let none = WriteSet::new();
    let w = Arc::new(none);
    for _ in 0..3 {
        let id = inner.take_queue_id();
        inner.enqueue_commit(Commit::new(id, w.clone()));
    }
    assert_eq!(inner.commits_between(1, 4).len(), 3);
    assert_eq!(inner.commits_between(2, 3)[0].0, 2);
    inner.run_cleanup_inner();
    let left = inner.commits_between(0, 10);
    assert_eq!(left.len(), 1);
    assert_eq!(left[0].0, 3);
    inner.dequeue_commit(3);
    assert!(inner.commits_between(0, 10).is_empty());
}

#[test]
fn the_newest_pending_write_comes_first() {
    let mut inner = Inner::new(&DatabaseOptions::default());
    let base = inner.timestamp();
    inner.write_key(&bytes("k"), base, &some("stored"));
    let id = inner.take_merge_id();
    assert_eq!(id, 1);
    let one = set_of(&[("k", Some("1"))]);
    let two = set_of(&[("k", None)]);
    let (v1, _) = inner.enqueue_merge(Merge { id, writeset: one }, base + 10);
    let id = inner.take_merge_id();
    let (v2, m2) = inner.enqueue_merge(Merge { id, writeset: two }, base + 10);
    assert_eq!((v1, v2), (base + 10, base + 11));
    assert_eq!(m2.id, 2);
    assert_eq!(inner.fetch_in_datastore(b"k", base + 9), some("stored"));
    assert_eq!(inner.fetch_in_datastore(b"k", v1), some("1"));
    assert_eq!(inner.fetch_in_datastore(b"k", v2), None);
    assert!(!inner.exists_in_datastore(b"k", v2));
    inner.remove_merge(v2);
    assert_eq!(inner.fetch_in_datastore(b"k", v2), some("1"));
    inner.remove_merge(v1);
    assert_eq!(inner.fetch_in_datastore(b"k", v2), some("stored"));
}

#[test]
fn counters_count() {
    let mut map = crossbeam_skiplist::SkipMap::new();
    assert_eq!(register_counter(&mut map, 7, None), 7);
    assert_eq!(register_counter(&mut map, 7, Some(7)), 7);
    assert_eq!(register_counter(&mut map, 5, None), 5);
    assert_eq!(earliest_active(&map, 99), 5);
    map.insert(5, u64::MAX);
    assert_eq!(earliest_active(&map, 99), 7);
    map.insert(7, 0);
    assert_eq!(earliest_active(&map, 99), 99);

    let mut counter = 2;
    assert!(!release_counter(&mut counter));
    assert_eq!(counter, 1);
    assert!(release_counter(&mut counter));
    assert_eq!(counter, u64::MAX);
}

#[test]
fn transactions_on_the_shared_state_itself() {
    let mut inner = Inner::new(&DatabaseOptions::default());
    let mut tx = TransactionInner::new(&mut inner, true);
    tx.set("k", "v").unwrap();
    let now = inner.current_time_ns();
    tx.commit_at(&mut inner, now).unwrap();
    assert!(tx.closed());
    tx.reset(&mut inner, false);
    assert!(!tx.closed());
    assert_eq!(tx.get(&inner, "k").unwrap(), some("v"));
    assert!(IsolationLevel::SnapshotIsolation < IsolationLevel::SerializableSnapshotIsolation);
}

#[test]
fn the_clock_is_read_off_its_anchor() {
    assert_eq!(Oracle::time_at(100, 23), 123);
    assert_eq!(Oracle::time_at(u64::MAX, 23), u64::MAX);
    assert_eq!(Oracle::time_at(100, (1u128 << 64) + 5), 105);
    let mut o = Oracle::anchored(1_000, web_time::Instant::now(), Duration::from_secs(5));
    assert_eq!(o.current_timestamp(), 1_000);
    assert_eq!(o.resync_interval(), Duration::from_secs(5));
    assert!(o.current_time_ns() >= 1_000);
    o.advance(2_000);
    o.advance(1_500);
    assert_eq!(o.current_timestamp(), 2_000);
    o.resync();
    assert_eq!(o.current_timestamp(), 2_000);
    let earlier = web_time::Instant::now() - Duration::from_millis(5);
    let late = Oracle::anchored(1_000, earlier, Duration::from_secs(5));
    let first = late.current_time_ns();
    assert!(first >= 5_001_000);
    while late.current_time_ns() == first {}
    assert!(late.current_time_ns() > first);
    // Well after 2020.
    assert!(o.current_time_ns() > 1_577_836_800_000_000_000);
    assert!(Oracle::current_unix_ns() > 1_577_836_800_000_000_000);
}

#[test]
fn setting_the_clock_anew_changes_no_version() {
    let mut db = Database::new();
    write(&mut db, "k", Some("v"));
    let before = db.transaction(false).version();
    db.resync();
    assert_eq!(db.transaction(false).version(), before);
    assert_eq!(read(&mut db, "k"), some("v"));
    assert_eq!(db.resync_interval(), Duration::from_secs(5));
    assert_eq!(db.cleanup_interval(), Duration::from_secs(1));
    assert_eq!(db.gc_interval(), Duration::from_millis(500));
}

#[test]
fn settings_of_databases() {
    let o = DatabaseOptions::new();
    assert_eq!(o.pool_size, 512);
    assert_eq!(o.resync_interval, Duration::from_secs(5));
    assert!(o.enable_cleanup);
    assert_eq!(o.cleanup_interval, Duration::from_secs(1));
    assert!(o.enable_gc);
    assert_eq!(o.gc_interval, Duration::from_millis(500));
    assert_eq!(o.gc_full_scan_frequency, 20);
    assert_eq!(o.reset_threshold, 100);
    let o = o
        .with_gc_interval(Duration::from_secs(2))
        .with_cleanup_interval(Duration::from_secs(3))
        .clone();
    assert_eq!(o.gc_interval, Duration::from_secs(2));
    assert_eq!(o.cleanup_interval, Duration::from_secs(3));
    let db = Database::new_with_options(o);
    assert_eq!(db.gc_interval(), Duration::from_secs(2));
    assert_eq!(db.cleanup_interval(), Duration::from_secs(3));
}

#[test]
fn a_frequency_of_nothing_scans_every_round() {
    let mut db = Database::new_with_options(DatabaseOptions {
        gc_full_scan_frequency: 0,
        ..Default::default()
    });
    write(&mut db, "k", Some("v"));
    let now = db.current_time_ns();
    assert_eq!(db.gc_round_at(3, now), 4);
    assert_eq!(read(&mut db, "k"), some("v"));
}

#[test]
fn sets_of_writes_are_sorted_and_hold_a_key_once() {
    let mut w = WriteSet::new();
    assert!(w.is_empty());
    for k in ["b", "a", "c", "ab", "a"] {
        w.insert(bytes(k), some(k));
    }
    w.insert(bytes("c"), None);
    assert_eq!(w.len(), 4);
    let keys: Vec<Bytes> = (0..4).map(|i| w.key_at(i).clone()).collect();
    assert_eq!(keys, vec![bytes("a"), bytes("ab"), bytes("b"), bytes("c")]);
    assert_eq!(w.value_at(3), &None);
    assert_eq!(w.get(b"ab"), Some(&some("ab")));
    assert_eq!(w.get(b"c"), Some(&None));
    assert_eq!(w.get(b"d"), None);
    assert!(w.contains_key(b"c"));
    w.clear();
    assert!(w.is_empty());
}

#[test]
fn keys_compare_byte_by_byte() {
    assert!(matches!(compare(b"a", b"a"), Order::Equal));
    assert!(matches!(compare(b"a", b"ab"), Order::Less));
    assert!(matches!(compare(b"b", b"ab"), Order::Greater));
    assert!(matches!(compare(b"", b"a"), Order::Less));
    assert!(matches!(compare(&[0xff], &[0x00, 0xff]), Order::Greater));
}

#[test]
fn values_become_bytes() {
    fn check<T: IntoBytes>(t: T) {
        assert_eq!(t.as_slice(), b"key");
        assert_eq!(t.into_bytes(), Bytes::from_static(b"key"));
    }
    let owned = "key".to_string();
    check("key");
    check(&owned);
    check(owned.clone());
    check(owned.into_bytes());
    check(b"key".as_slice());
}

#[test]
fn commits_are_disjoint_or_not() {
    let commit = |list: &[(&str, Option<&str>)]| Arc::new(Commit::new(1, set_of(list)));
    let ab = commit(&[("a", None), ("b", Some("1"))]);
    let bc = commit(&[("b", Some("2")), ("c", None)]);
    let cd = commit(&[("c", None), ("d", None)]);
    let ac = commit(&[("a", None), ("c", None)]);
    assert_eq!(ab.id(), 1);
    for (x, y, disjoint) in
        [(&ab, &bc, false), (&ab, &cd, true), (&bc, &cd, false), (&ac, &bc, false), (&ab, &ac, false)]
    {
        assert_eq!(x.is_disjoint_writeset(y), disjoint);
        assert_eq!(y.is_disjoint_writeset(x), disjoint);
        assert_eq!(x.is_disjoint_writeset_bloom(y), disjoint);
        assert_eq!(y.is_disjoint_writeset_bloom(x), disjoint);
    }
    let mut bloom = BloomFilter::new();
    let reads: papaya::HashSet<Bytes> = papaya::HashSet::new();
    assert!(ab.is_disjoint_readset(&reads));
    assert!(ab.is_disjoint_readset_bloom(&reads, &bloom));
    reads.pin().insert(bytes("b"));
    bloom.insert(b"b");
    assert!(!ab.is_disjoint_readset(&reads));
    assert!(!ab.is_disjoint_readset_bloom(&reads, &bloom));
    assert!(cd.is_disjoint_readset(&reads));
    assert!(cd.is_disjoint_readset_bloom(&reads, &bloom));
    for k in ["x", "y", "z"] {
        reads.pin().insert(bytes(k));
        bloom.insert(k.as_bytes());
    }
    assert!(!ab.is_disjoint_readset(&reads));
    assert!(cd.is_disjoint_readset(&reads));
}

#[test]
fn filters_miss_nothing() {
    let mut bf = BloomFilter::new();
    let keys: Vec<String> = (0..500).map(|i| format!("key_{}", i)).collect();
    for k in &keys {
        bf.insert(k.as_bytes());
    }
    for k in &keys {
        assert!(bf.may_contain(k.as_bytes()));
    }
}

#[test]
fn chains_take_writes_in_any_order() {
    let version = |v: u64, x: Option<&str>| Version { version: v, value: x.map(bytes) };
    let mut c = Versions::from(version(20, Some("b")));
    assert!(matches!(c.fetch_index_or_update(&version(10, None)), IndexOrUpdate::Ignore));
    assert!(matches!(c.fetch_index_or_update(&version(10, Some("a"))), IndexOrUpdate::Index(0)));
    assert!(matches!(c.fetch_index_or_update(&version(20, Some("x"))), IndexOrUpdate::Update(0)));
    assert!(matches!(c.fetch_index_or_update(&version(20, Some("b"))), IndexOrUpdate::Ignore));
    assert!(matches!(c.fetch_index_or_update(&version(25, Some("b"))), IndexOrUpdate::Ignore));
    c.push(version(10, None));
    assert_eq!(c.len(), 1);
    c.push(version(10, Some("a")));
    c.push(version(15, Some("a")));
    assert_eq!(c.all_versions(), vec![(10, some("a")), (20, some("b"))]);
    let copy = c.duplicate();
    c.drain(0, 1);
    assert_eq!(c.all_versions(), vec![(20, some("b"))]);
    assert_eq!(copy.len(), 2);
    assert!(version(1, None) < version(2, None));
    assert!(version(1, None) == version(1, None));
    assert!(version(1, None) != version(1, Some("x")));
}

#[test]
fn long_chains_are_searched_and_shrunk() {
    let mut c = Versions::new();
    for i in 1..=50u64 {
        c.push(Version { version: i * 10, value: Some(Bytes::from(format!("v{}", i))) });
    }
    for t in [0, 9, 10, 11, 255, 499, 500, 501] {
        assert_eq!(c.find_index_lte_version(t), (t / 10).min(50) as usize);
        assert_eq!(c.find_index_lt_version(t), (t.saturating_sub(1) / 10).min(50) as usize);
    }
    assert_eq!(c.gc_older_versions(475), 4);
    assert_eq!(c.get(0).version, 470);
    assert_eq!(c.gc_older_versions(475), 4);
    assert_eq!(c.fetch_version(475), some("v47"));
    assert_eq!(c.fetch_version(469), None);
}

#[test]
fn errors_speak() {
    assert_eq!(Error::TxClosed.message(), "transaction is closed");
    assert_eq!(Error::KeyWriteConflict.message(), "Write conflict, retry the transaction");
    assert_eq!(Error::KeyReadConflict.message(), "Read conflict, retry the transaction");
    assert_eq!(Error::TxNotWritable.message(), "Transaction is not writable");
    assert_eq!(Error::KeyAlreadyExists.message(), "Key already exists, cannot be overwritten");
    let locked = || PersistenceError::LockFailed("poisoned".to_string());
    assert_eq!(locked().message(), "Lock acquisition failed");
    assert_eq!(
        Error::TxCommitNotPersisted(locked()).message(),
        "Transaction commit AOL persistence failed: Lock acquisition failed"
    );
    let io = PersistenceError::from(std::io::Error::other("disk full"));
    assert_eq!(io.message(), "IO error: disk full");
    let decode = PersistenceError::from(bincode::error::DecodeError::ArrayLengthMismatch {
        required: 1,
        found: 2,
    });
    assert!(decode.message().starts_with("Deserialization error: "));
    assert!(matches!(decode, PersistenceError::Deserialization(_)));
    let encode = PersistenceError::from(bincode::error::EncodeError::UnexpectedEnd);
    assert!(encode.message().starts_with("Serialization error: "));
}

#[test]
fn a_registration_that_came_too_late_is_taken_back() {
    let mut map = crossbeam_skiplist::SkipMap::new();
    assert_eq!(try_register(&mut map, 7, 8, None), None);
    assert_eq!(earliest_active(&map, 99), 99);
    assert_eq!(try_register(&mut map, 7, 7, Some(8)), None);
    assert_eq!(earliest_active(&map, 99), 99);
    assert_eq!(try_register(&mut map, 7, 7, Some(7)), Some(7));
    assert_eq!(earliest_active(&map, 99), 7);
    assert_eq!(try_register(&mut map, 7, 9, None), None);
    assert_eq!(earliest_active(&map, 99), 7);
    map.insert(7, u64::MAX);
    assert_eq!(try_register(&mut map, 7, 7, None), None);
}

#[test]
fn an_offer_is_refused_where_another_record_is() {
    let mut inner = Inner::default();
    let w = Arc::new(WriteSet::new());
    let one = Arc::new(Commit::new(1, w.clone()));
    assert_eq!(inner.offer_commit(&one), Some(1));
    assert_eq!(inner.commit_id(), 1);
    assert_eq!(inner.commits_between(0, 9).len(), 1);
    let base = inner.timestamp();
    let one = Arc::new(Merge { id: 1, writeset: w });
    assert_eq!(inner.offer_merge(&one, 0), Some(base + 1));
    assert_eq!(inner.offer_merge(&one, base + 5), Some(base + 5));
    assert_eq!(inner.timestamp(), base + 5);
}

#[test]
fn waiting_gives_up_more_and_more() {
    assert_eq!(backoff(0), Backoff::Spin);
    assert_eq!(backoff(9), Backoff::Spin);
    assert_eq!(backoff(10), Backoff::Yield);
    assert_eq!(backoff(99), Backoff::Yield);
    assert_eq!(backoff(100), Backoff::Park(10));
}

#[test]
fn a_commit_is_seen_as_a_whole() {
    let mut db = Database::new();
    write(&mut db, "a", Some("0"));
    write(&mut db, "b", Some("0"));
    write(&mut db, "c", Some("0"));
    let mut early = db.transaction(false);
    let mut tx = db.transaction(true);
    tx.set("a", "1").unwrap();
    tx.del("b").unwrap();
    tx.commit(&mut db).unwrap();
    let mut late = db.transaction(false);
    assert_eq!(late.get(&db, "a").unwrap(), some("1"));
    assert_eq!(late.get(&db, "b").unwrap(), None);
    assert_eq!(late.get(&db, "c").unwrap(), some("0"));
    for k in ["a", "b", "c"] {
        assert_eq!(early.get(&db, k).unwrap(), some("0"));
    }
}

#[test]
fn ending_a_commit_changes_no_read() {
    let mut inner = Inner::default();
    let mut tx = TransactionInner::new(&mut inner, true);
    tx.set("k", "v").unwrap();
    let now = inner.current_time_ns();
    let pending = tx.commit_start(&mut inner, now).unwrap().unwrap();
    let version = pending.version;
    assert_eq!(inner.fetch_in_datastore(b"k", version), some("v"));
    assert_eq!(inner.fetch_in_datastore(b"k", version - 1), None);
    tx.commit_finish(&mut inner, pending, Ok(())).unwrap();
    assert_eq!(inner.fetch_in_datastore(b"k", version), some("v"));
    assert_eq!(inner.fetch_in_datastore(b"k", version - 1), None);
}
