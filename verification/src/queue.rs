//! What committing transactions leave for others: commit records, which conflicts are looked for
//! in, and merge records, which hold writes on their way to the store.

use bytes::Bytes;
use papaya::HashSet;
use std::sync::Arc;
use vstd::prelude::*;

use crate::bloom::{law_no_false_negative, BloomFilter};
use crate::kv::{
    bytes_as_slice, bytes_clone, bytes_from_vec, bytes_view, compare, lemma_lex_irreflexive,
    lemma_lex_transitive, lex_lt, Order,
};
use crate::readset::{keyset_contains, keyset_is_empty, keyset_iter, keyset_len, keyset_view};
use crate::writeset::{entries_sorted, lemma_map_of, map_of, WriteSet};

verus! {

/// The record of a transaction in the commit queue.
pub struct Commit {
    /// The number of the transaction in the queue.
    id: u64,
    /// What the transaction wrote.
    writeset: Arc<WriteSet>,
    /// A filter over the keys that it wrote.
    writeset_bloom: BloomFilter,
    /// The greatest of them.
    max_key: Bytes,
    /// The least of them.
    min_key: Bytes,
}

impl Commit {
    /// The filter finds every key that was written, and every key lies between the two bounds.
    #[verifier::type_invariant]
    spec fn covers(self) -> bool {
        &&& forall|k: Seq<u8>| #[trigger]
            self.writeset@.contains_key(k) ==> self.writeset_bloom.may_hold(k)
        &&& forall|k: Seq<u8>| #[trigger]
            self.writeset@.contains_key(k) ==> k == bytes_view(self.max_key) || lex_lt(
                k,
                bytes_view(self.max_key),
            )
        &&& forall|k: Seq<u8>| #[trigger]
            self.writeset@.contains_key(k) ==> k == bytes_view(self.min_key) || lex_lt(
                bytes_view(self.min_key),
                k,
            )
    }

    spec fn least(&self) -> Seq<u8> {
        bytes_view(self.min_key)
    }

    spec fn greatest(&self) -> Seq<u8> {
        bytes_view(self.max_key)
    }

    /// The number of the transaction in the queue.
    pub closed spec fn number(&self) -> u64 {
        self.id
    }

    /// What the transaction wrote.
    pub closed spec fn writes(&self) -> Map<Seq<u8>, Option<Seq<u8>>> {
        self.writeset@
    }

    /// The record of a transaction that wrote `writeset`.
    pub fn new(id: u64, writeset: Arc<WriteSet>) -> (r: Self)
        ensures
            r.number() == id,
            r.writes() == writeset@,
    {
        let mut writeset_bloom = BloomFilter::new();
        let n: usize = writeset.len();
        let ghost e = writeset.list();
        let mut i: usize = 0;
        while i < n
            invariant
                i <= n == e.len(),
                e == writeset.list(),
                writeset_bloom.inserted() == i,
                forall|j: int| 0 <= j < i ==> writeset_bloom.may_hold(#[trigger] e[j].0),
            decreases n - i,
        {
            let ghost before = writeset_bloom;
            let key = bytes_as_slice(writeset.key_at(i));
            writeset_bloom.insert(key);
            assert forall|j: int| 0 <= j < i + 1 implies writeset_bloom.may_hold(
                #[trigger] e[j].0,
            ) by {
                law_no_false_negative(before, writeset_bloom, key@, e[j].0);
            }
            i += 1;
        }
        let (max_key, min_key) = if n > 0 {
            (bytes_clone(writeset.key_at(n - 1)), bytes_clone(writeset.key_at(0)))
        } else {
            (bytes_from_vec(Vec::new()), bytes_from_vec(Vec::new()))
        };
        proof {
            lemma_map_of(e);
            assert forall|k: Seq<u8>| #[trigger] writeset@.contains_key(k) implies {
                &&& writeset_bloom.may_hold(k)
                &&& k == bytes_view(max_key) || lex_lt(k, bytes_view(max_key))
                &&& k == bytes_view(min_key) || lex_lt(bytes_view(min_key), k)
            } by {
                let j = choose|j: int| 0 <= j < e.len() && #[trigger] e[j].0 == k;
                assert(writeset_bloom.may_hold(e[j].0));
                assert(bytes_view(max_key) == e[n - 1].0);
                assert(bytes_view(min_key) == e[0].0);
            }
        }
        Commit { id, writeset, writeset_bloom, max_key, min_key }
    }

    /// The number of the transaction in the queue.
    pub fn id(&self) -> (r: u64)
        ensures
            r == self.number(),
    {
        self.id
    }

    /// Whether the transaction wrote a key.
    pub fn writes_key(&self, key: &[u8]) -> (r: bool)
        ensures
            r == self.writes().contains_key(key@),
    {
        self.writeset.contains_key(key)
    }

    /// Whether two transactions wrote no key in common. The bounds and the filter settle most
    /// pairs without a look at the keys.
    pub fn is_disjoint_writeset_bloom(&self, other: &Arc<Commit>) -> (r: bool)
        ensures
            r == self.writes().dom().disjoint(other.writes().dom()),
    {
        proof {
            use_type_invariant(self);
            use_type_invariant(&**other);
        }
        let ghost a = self.writeset@;
        let ghost b = other.writeset@;
        if let Order::Less = compare(bytes_as_slice(&self.max_key), bytes_as_slice(&other.min_key)) {
            proof {
                let hi = self.greatest();
                let lo = other.least();
                assert forall|k: Seq<u8>| a.contains_key(k) implies !b.contains_key(k) by {
                    if b.contains_key(k) {
                        if k != hi {
                            lemma_lex_transitive(k, hi, lo);
                        }
                        if k != lo {
                            lemma_lex_transitive(lo, k, lo);
                        }
                        lemma_lex_irreflexive(lo);
                    }
                }
            }
            return true;
        }
        if let Order::Greater = compare(
            bytes_as_slice(&self.min_key),
            bytes_as_slice(&other.max_key),
        ) {
            proof {
                let hi = other.greatest();
                let lo = self.least();
                assert forall|k: Seq<u8>| a.contains_key(k) implies !b.contains_key(k) by {
                    if b.contains_key(k) {
                        if k != hi {
                            lemma_lex_transitive(k, hi, lo);
                        }
                        if k != lo {
                            lemma_lex_transitive(lo, k, lo);
                        }
                        lemma_lex_irreflexive(lo);
                    }
                }
            }
            return true;
        }
        if !self.any_in_filter(&other.writeset_bloom) {
            assert forall|k: Seq<u8>| a.contains_key(k) implies !b.contains_key(k) by {
                assert(!other.writeset_bloom.may_hold(k));
            }
            return true;
        }
        self.is_disjoint_writeset(other)
    }

    /// Whether a filter may hold a key that this transaction wrote.
    fn any_in_filter(&self, bloom: &BloomFilter) -> (r: bool)
        ensures
            r == exists|k: Seq<u8>| #[trigger] self.writeset@.contains_key(k) && bloom.may_hold(k),
    {
        let n: usize = self.writeset.len();
        let ghost e = self.writeset.list();
        proof {
            lemma_map_of(e);
        }
        let mut i: usize = 0;
        while i < n
            invariant
                i <= n == e.len(),
                e == self.writeset.list(),
                forall|j: int| 0 <= j < i ==> !bloom.may_hold(#[trigger] e[j].0),
            decreases n - i,
        {
            let key = self.writeset.key_at(i);
            if bloom.may_contain(bytes_as_slice(key)) {
                assert(self.writeset@.contains_key(bytes_view(*key)));
                return true;
            }
            i += 1;
        }
        assert forall|k: Seq<u8>| #[trigger] self.writeset@.contains_key(k) implies !bloom.may_hold(
            k,
        ) by {
            let j = choose|j: int| 0 <= j < e.len() && #[trigger] e[j].0 == k;
            assert(!bloom.may_hold(e[j].0));
        }
        false
    }

    /// Whether two transactions wrote no key in common: walks both lists of keys side by side.
    pub fn is_disjoint_writeset(&self, other: &Arc<Commit>) -> (r: bool)
        ensures
            r == self.writes().dom().disjoint(other.writes().dom()),
    {
        let n: usize = self.writeset.len();
        let m: usize = other.writeset.len();
        let ghost a = self.writeset.list();
        let ghost b = other.writeset.list();
        let mut i: usize = 0;
        let mut j: usize = 0;
        while i < n && j < m
            invariant
                i <= n == a.len(),
                j <= m == b.len(),
                a == self.writeset.list(),
                b == other.writeset.list(),
                entries_sorted(a),
                entries_sorted(b),
                forall|x: int, y: int|
                    0 <= x < a.len() && 0 <= y < b.len() && (x < i || y < j) ==> (#[trigger] a[x]).0
                        != (#[trigger] b[y]).0,
            decreases (n - i) + (m - j),
        {
            let ka = self.writeset.key_at(i);
            let kb = other.writeset.key_at(j);
            match compare(bytes_as_slice(ka), bytes_as_slice(kb)) {
                Order::Less => {
                    assert forall|y: int| 0 <= y < b.len() implies a[i as int].0
                        != (#[trigger] b[y]).0 by {
                        lemma_lex_irreflexive(a[i as int].0);
                        if y > j {
                            assert(lex_lt(b[j as int].0, b[y].0));
                            lemma_lex_transitive(a[i as int].0, b[j as int].0, b[y].0);
                        }
                    }
                    i += 1;
                },
                Order::Greater => {
                    assert forall|x: int| 0 <= x < a.len() implies (#[trigger] a[x]).0
                        != b[j as int].0 by {
                        lemma_lex_irreflexive(b[j as int].0);
                        if x > i {
                            assert(lex_lt(a[i as int].0, a[x].0));
                            lemma_lex_transitive(b[j as int].0, a[i as int].0, a[x].0);
                        }
                    }
                    j += 1;
                },
                Order::Equal => {
                    assert(self.writes().dom().contains(bytes_view(*ka)));
                    assert(other.writes().dom().contains(bytes_view(*ka)));
                    return false;
                },
            }
        }
        proof {
            lemma_map_of(a);
            lemma_map_of(b);
            assert forall|k: Seq<u8>|
                self.writes().dom().contains(k) implies !other.writes().dom().contains(k) by {
                if other.writes().dom().contains(k) {
                    let x = choose|x: int| 0 <= x < a.len() && #[trigger] a[x].0 == k;
                    let y = choose|y: int| 0 <= y < b.len() && #[trigger] b[y].0 == k;
                    assert(a[x].0 != b[y].0);
                }
            }
        }
        true
    }

    /// Whether this transaction wrote none of the keys in `other`. `bloom` is a filter over those
    /// keys; it settles most pairs without a look at them.
    pub fn is_disjoint_readset_bloom(&self, other: &HashSet<Bytes>, bloom: &BloomFilter) -> (r: bool)
        requires
            bloom.inserted() == 0 ==> keyset_view(*other) == Set::<Seq<u8>>::empty(),
            forall|k: Seq<u8>| #[trigger] keyset_view(*other).contains(k) ==> bloom.may_hold(k),
        ensures
            r == self.writes().dom().disjoint(keyset_view(*other)),
    {
        if bloom.is_empty() {
            return true;
        }
        if !self.any_in_filter(bloom) {
            assert forall|k: Seq<u8>|
                self.writes().dom().contains(k) implies !keyset_view(*other).contains(k) by {
                assert(self.writeset@.contains_key(k));
            }
            return true;
        }
        self.is_disjoint_readset(other)
    }

    /// Whether this transaction wrote none of the keys in `other`: walks the smaller of the two.
    pub fn is_disjoint_readset(&self, other: &HashSet<Bytes>) -> (r: bool)
        ensures
            r == self.writes().dom().disjoint(keyset_view(*other)),
    {
        let n: usize = self.writeset.len();
        let ghost e = self.writeset.list();
        let ghost keys = keyset_view(*other);
        if keyset_is_empty(other) {
            return true;
        }
        if keyset_len(other) < n {
            let reads = keyset_iter(other);
            let mut i: usize = 0;
            while i < reads.len()
                invariant
                    i <= reads@.len(),
                    keys == keyset_view(*other),
                    forall|x: int| 0 <= x < reads@.len() ==> keys.contains(
                        bytes_view(#[trigger] reads@[x]),
                    ),
                    forall|j: int| 0 <= j < i ==> !self.writes().contains_key(
                        bytes_view(#[trigger] reads@[j]),
                    ),
                decreases reads@.len() - i,
            {
                let key = bytes_as_slice(&reads[i]);
                if self.writeset.contains_key(key) {
                    assert(self.writes().dom().contains(key@));
                    assert(keys.contains(key@));
                    return false;
                }
                i += 1;
            }
            assert forall|k: Seq<u8>|
                self.writes().dom().contains(k) implies !keys.contains(k) by {
                if keys.contains(k) {
                    let x = choose|x: int| 0 <= x < reads@.len() && bytes_view(
                        #[trigger] reads@[x],
                    ) == k;
                    assert(!self.writes().contains_key(bytes_view(reads@[x])));
                }
            }
        } else {
            let mut i: usize = 0;
            while i < n
                invariant
                    i <= n == e.len(),
                    e == self.writeset.list(),
                    keys == keyset_view(*other),
                    forall|j: int| 0 <= j < i ==> !keys.contains(#[trigger] e[j].0),
                decreases n - i,
            {
                let key = bytes_as_slice(self.writeset.key_at(i));
                if keyset_contains(other, key) {
                    assert(self.writes().dom().contains(key@));
                    return false;
                }
                i += 1;
            }
            proof {
                lemma_map_of(e);
                assert forall|k: Seq<u8>|
                    self.writes().dom().contains(k) implies !keys.contains(k) by {
                    assert(map_of(e).contains_key(k));
                    let j = choose|j: int| 0 <= j < e.len() && #[trigger] e[j].0 == k;
                    assert(!keys.contains(e[j].0));
                }
            }
        }
        true
    }
}

/// The record of a transaction in the merge queue: its writes are visible before they have
/// reached the store.
pub struct Merge {
    /// The number of the record.
    pub id: u64,
    /// What the transaction wrote.
    pub writeset: Arc<WriteSet>,
}

} // verus!
