use stupid_kv::bloom::BloomFilter;

#[test]
fn empty_filter_contains_nothing() {
    let bf = BloomFilter::new();
    assert!(bf.is_empty());
    assert!(!bf.may_contain(b"hello"));
    assert!(!bf.may_contain(b"world"));
}

#[test]
fn inserted_keys_are_found() {
    let mut bf = BloomFilter::new();
    bf.insert(b"hello");
    bf.insert(b"world");
    assert!(!bf.is_empty());
    assert!(bf.may_contain(b"hello"));
    assert!(bf.may_contain(b"world"));
}

#[test]
fn missing_keys_usually_not_found() {
    let mut bf = BloomFilter::new();
    for i in 0..100u32 {
        bf.insert(&i.to_le_bytes());
    }
    let mut false_positives = 0;
    for i in 1000..2000u32 {
        if bf.may_contain(&i.to_le_bytes()) {
            false_positives += 1;
        }
    }
    assert!(false_positives < 100, "too many false positives: {}", false_positives);
}

#[test]
fn clear_resets_filter() {
    let mut bf = BloomFilter::new();
    bf.insert(b"hello");
    assert!(bf.may_contain(b"hello"));
    bf.clear();
    assert!(bf.is_empty());
    assert!(!bf.may_contain(b"hello"));
}
