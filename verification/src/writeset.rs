//! The writes of a transaction: an ordered map from keys to values, kept as a sorted vector.

use bytes::Bytes;
use vstd::prelude::*;

use crate::kv::{
    bytes_as_slice, bytes_view, compare, lemma_lex_irreflexive, lemma_lex_transitive, lex_lt,
    value_view, Order,
};

verus! {

/// Keys with what is written to them, `None` for a deletion.
pub type EntriesModel = Seq<(Seq<u8>, Option<Seq<u8>>)>;

/// Keys ascend strictly in dictionary order.
pub open spec fn entries_sorted(e: EntriesModel) -> bool {
    forall|i: int, j: int| 0 <= i < j < e.len() ==> lex_lt(#[trigger] e[i].0, #[trigger] e[j].0)
}

/// The map that a list of entries describes; a later entry replaces an earlier one.
pub open spec fn map_of(e: EntriesModel) -> Map<Seq<u8>, Option<Seq<u8>>>
    decreases e.len(),
{
    if e.len() == 0 {
        Map::empty()
    } else {
        map_of(e.drop_last()).insert(e.last().0, e.last().1)
    }
}

/// What a vector of entries holds.
pub open spec fn entries_view(s: Seq<(Bytes, Option<Bytes>)>) -> EntriesModel {
    Seq::new(s.len(), |i: int| (bytes_view(s[i].0), value_view(s[i].1)))
}

/// A list of entries describes a map on exactly its keys, and sorted entries lose nothing.
pub proof fn lemma_map_of(e: EntriesModel)
    ensures
        map_of(e).dom().finite(),
        forall|k: Seq<u8>|
            map_of(e).contains_key(k) <==> exists|i: int| 0 <= i < e.len() && #[trigger] e[i].0 == k,
        entries_sorted(e) ==> forall|i: int|
            0 <= i < e.len() ==> map_of(e).contains_key(#[trigger] e[i].0) && map_of(e)[e[i].0]
                == e[i].1,
    decreases e.len(),
{
    if e.len() > 0 {
        let d = e.drop_last();
        lemma_map_of(d);
        assert forall|k: Seq<u8>|
            map_of(e).contains_key(k) <==> exists|i: int| 0 <= i < e.len() && #[trigger] e[i].0
                == k by {
            if map_of(e).contains_key(k) {
                if k == e.last().0 {
                    assert(e[e.len() - 1].0 == k);
                } else {
                    let i = choose|i: int| 0 <= i < d.len() && #[trigger] d[i].0 == k;
                    assert(e[i].0 == k);
                }
            }
            if exists|i: int| 0 <= i < e.len() && #[trigger] e[i].0 == k {
                let i = choose|i: int| 0 <= i < e.len() && #[trigger] e[i].0 == k;
                if i < d.len() {
                    assert(d[i].0 == k);
                }
            }
        }
        if entries_sorted(e) {
            assert(entries_sorted(d)) by {
                assert forall|i: int, j: int| 0 <= i < j < d.len() implies lex_lt(
                    #[trigger] d[i].0,
                    #[trigger] d[j].0,
                ) by {
                    assert(lex_lt(e[i].0, e[j].0));
                }
            }
            assert forall|i: int| 0 <= i < e.len() implies map_of(e).contains_key(
                #[trigger] e[i].0,
            ) && map_of(e)[e[i].0] == e[i].1 by {
                if i < d.len() {
                    assert(d[i].0 == e[i].0);
                    assert(lex_lt(e[i].0, e[e.len() - 1].0));
                    lemma_lex_irreflexive(e[i].0);
                }
            }
        }
    }
}

/// A sorted list holds a key at most once, so its length is the number of keys.
pub proof fn lemma_map_of_len(e: EntriesModel)
    requires
        entries_sorted(e),
    ensures
        map_of(e).dom().len() == e.len(),
    decreases e.len(),
{
    lemma_map_of(e);
    if e.len() > 0 {
        let d = e.drop_last();
        assert(entries_sorted(d)) by {
            assert forall|i: int, j: int| 0 <= i < j < d.len() implies lex_lt(
                #[trigger] d[i].0,
                #[trigger] d[j].0,
            ) by {
                assert(lex_lt(e[i].0, e[j].0));
            }
        }
        lemma_map_of_len(d);
        lemma_map_of(d);
        assert(!map_of(d).contains_key(e.last().0)) by {
            if map_of(d).contains_key(e.last().0) {
                let i = choose|i: int| 0 <= i < d.len() && #[trigger] d[i].0 == e.last().0;
                assert(lex_lt(e[i].0, e[e.len() - 1].0));
                lemma_lex_irreflexive(e.last().0);
            }
        }
        assert(map_of(e).dom() =~= map_of(d).dom().insert(e.last().0));
    } else {
        assert(map_of(e).dom() =~= Set::empty());
    }
}

/// The writes of a transaction.
pub struct WriteSet {
    entries: Vec<(Bytes, Option<Bytes>)>,
}

impl View for WriteSet {
    type V = Map<Seq<u8>, Option<Seq<u8>>>;

    closed spec fn view(&self) -> Map<Seq<u8>, Option<Seq<u8>>> {
        map_of(entries_view(self.entries@))
    }
}

impl WriteSet {
    #[verifier::type_invariant]
    spec fn sorted(self) -> bool {
        entries_sorted(entries_view(self.entries@))
    }

    /// The writes in the order of their keys.
    pub closed spec fn list(&self) -> EntriesModel {
        entries_view(self.entries@)
    }

    /// The list is sorted and describes the map.
    pub open spec fn consistent(&self) -> bool {
        entries_sorted(self.list()) && self@ == map_of(self.list())
    }

    /// No writes.
    pub fn new() -> (r: Self)
        ensures
            r@ == Map::<Seq<u8>, Option<Seq<u8>>>::empty(),
            r.consistent(),
            r.list().len() == 0,
    {
        WriteSet { entries: Vec::new() }
    }

    /// What the list says of the map: its keys ascend, and it describes the map.
    pub proof fn lemma_list(self)
        requires
            entries_sorted(self.list()),
        ensures
            self@ == map_of(self.list()),
            self@.dom().finite(),
            self@.dom().len() == self.list().len(),
            forall|k: Seq<u8>|
                self@.contains_key(k) <==> exists|i: int|
                    0 <= i < self.list().len() && #[trigger] self.list()[i].0 == k,
            forall|i: int|
                0 <= i < self.list().len() ==> self@.contains_key(#[trigger] self.list()[i].0)
                    && self@[self.list()[i].0] == self.list()[i].1,
    {
        lemma_map_of(self.list());
        lemma_map_of_len(self.list());
    }

    /// The number of keys.
    pub fn len(&self) -> (r: usize)
        ensures
            r == self@.dom().len(),
            r == self.list().len(),
            entries_sorted(self.list()),
            self@ == map_of(self.list()),
            self@.dom().finite(),
    {
        proof {
            use_type_invariant(self);
            self.lemma_list();
        }
        self.entries.len()
    }

    /// Whether nothing was written.
    pub fn is_empty(&self) -> (r: bool)
        ensures
            r == (self@.dom() =~= Set::empty()),
            r == (self.list().len() == 0),
    {
        proof {
            use_type_invariant(self);
            self.lemma_list();
            if self.list().len() > 0 {
                assert(self@.contains_key(self.list()[0].0));
            }
        }
        self.entries.len() == 0
    }

    /// The key at a position of the list.
    pub fn key_at(&self, i: usize) -> (r: &Bytes)
        requires
            i < self.list().len(),
        ensures
            bytes_view(*r) == self.list()[i as int].0,
            self@.contains_key(bytes_view(*r)),
    {
        proof {
            use_type_invariant(self);
            self.lemma_list();
        }
        &self.entries[i].0
    }

    /// The value at a position of the list.
    pub fn value_at(&self, i: usize) -> (r: &Option<Bytes>)
        requires
            i < self.list().len(),
        ensures
            value_view(*r) == self.list()[i as int].1,
            self@[self.list()[i as int].0] == value_view(*r),
    {
        proof {
            use_type_invariant(self);
            self.lemma_list();
        }
        &self.entries[i].1
    }

    /// Looks a key up: whether it is there, and at which position it is or would have to go.
    fn search(&self, key: &[u8]) -> (r: (bool, usize))
        ensures
            entries_sorted(self.list()),
            r.1 <= self.list().len(),
            r.0 ==> r.1 < self.list().len() && self.list()[r.1 as int].0 == key@,
            r.0 == self@.contains_key(key@),
            forall|i: int| 0 <= i < r.1 ==> lex_lt(#[trigger] self.list()[i].0, key@),
            forall|i: int|
                r.1 <= i < self.list().len() && !(r.0 && i == r.1) ==> lex_lt(
                    key@,
                    #[trigger] self.list()[i].0,
                ),
    {
        proof {
            use_type_invariant(self);
            self.lemma_list();
        }
        let ghost e = self.list();
        let mut lo: usize = 0;
        let mut hi: usize = self.entries.len();
        while lo < hi
            invariant
                lo <= hi <= e.len(),
                e == self.list(),
                e.len() == self.entries@.len(),
                entries_sorted(e),
                forall|i: int|
                    0 <= i < e.len() ==> self@.contains_key(#[trigger] e[i].0) && self@[e[i].0]
                        == e[i].1,
                forall|i: int| 0 <= i < lo ==> lex_lt(#[trigger] e[i].0, key@),
                forall|i: int| hi <= i < e.len() ==> lex_lt(key@, #[trigger] e[i].0),
            decreases hi - lo,
        {
            let mid: usize = lo + (hi - lo) / 2;
            assert(e[mid as int].0 == bytes_view(self.entries@[mid as int].0));
            match compare(bytes_as_slice(&self.entries[mid].0), key) {
                Order::Less => {
                    assert forall|i: int| 0 <= i < mid + 1 implies lex_lt(
                        #[trigger] e[i].0,
                        key@,
                    ) by {
                        if i < mid {
                            lemma_lex_transitive(e[i].0, e[mid as int].0, key@);
                        }
                    }
                    lo = mid + 1;
                },
                Order::Equal => {
                    assert forall|i: int| 0 <= i < mid implies lex_lt(#[trigger] e[i].0, key@) by {
                        assert(lex_lt(e[i].0, e[mid as int].0));
                    }
                    assert forall|i: int| mid < i < e.len() implies lex_lt(
                        key@,
                        #[trigger] e[i].0,
                    ) by {
                        assert(lex_lt(e[mid as int].0, e[i].0));
                    }
                    return (true, mid);
                },
                Order::Greater => {
                    assert forall|i: int| mid <= i < e.len() implies lex_lt(
                        key@,
                        #[trigger] e[i].0,
                    ) by {
                        if mid < i {
                            lemma_lex_transitive(key@, e[mid as int].0, e[i].0);
                        }
                    }
                    hi = mid;
                },
            }
        }
        proof {
            if self@.contains_key(key@) {
                let i = choose|i: int| 0 <= i < e.len() && #[trigger] e[i].0 == key@;
                lemma_lex_irreflexive(key@);
            }
        }
        (false, lo)
    }

    /// What was written to a key; `None` where nothing was.
    pub fn get(&self, key: &[u8]) -> (r: Option<&Option<Bytes>>)
        ensures
            r is Some == self@.contains_key(key@),
            r matches Some(v) ==> value_view(*v) == self@[key@],
    {
        proof {
            use_type_invariant(self);
            self.lemma_list();
        }
        let (found, i) = self.search(key);
        if found {
            assert(self@[self.list()[i as int].0] == self.list()[i as int].1);
            Some(&self.entries[i].1)
        } else {
            None
        }
    }

    /// Whether a key was written.
    pub fn contains_key(&self, key: &[u8]) -> (r: bool)
        ensures
            r == self@.contains_key(key@),
    {
        self.search(key).0
    }

    /// Writes a value to a key, in place of what was written to it before.
    pub fn insert(&mut self, key: Bytes, value: Option<Bytes>)
        ensures
            final(self)@ == old(self)@.insert(bytes_view(key), value_view(value)),
            final(self).consistent(),
    {
        proof {
            use_type_invariant(&*self);
        }
        let ghost before = self.list();
        let ghost k = bytes_view(key);
        let ghost v = value_view(value);
        proof {
            self.lemma_list();
        }
        let (found, i) = self.search(bytes_as_slice(&key));
        let mut entries: Vec<(Bytes, Option<Bytes>)> = Vec::new();
        std::mem::swap(&mut entries, &mut self.entries);
        if found {
            entries[i] = (key, value);
        } else {
            entries.insert(i, (key, value));
        }
        proof {
            let after = entries_view(entries@);
            lemma_map_of(before);
            if found {
                assert(after =~= before.update(i as int, (k, v)));
                assert forall|a: int, b: int| 0 <= a < b < after.len() implies lex_lt(
                    #[trigger] after[a].0,
                    #[trigger] after[b].0,
                ) by {
                    assert(lex_lt(before[a].0, before[b].0));
                }
            } else {
                assert(after =~= before.insert(i as int, (k, v)));
                assert forall|a: int, b: int| 0 <= a < b < after.len() implies lex_lt(
                    #[trigger] after[a].0,
                    #[trigger] after[b].0,
                ) by {
                    if b < i {
                        assert(lex_lt(before[a].0, before[b].0));
                    } else if b == i {
                        assert(lex_lt(before[a].0, k));
                    } else if a < i {
                        assert(lex_lt(before[a].0, before[b - 1].0));
                    } else if a == i {
                        assert(lex_lt(k, before[b - 1].0));
                    } else {
                        assert(lex_lt(before[a - 1].0, before[b - 1].0));
                    }
                }
            }
            lemma_map_of(after);
            let m = map_of(before).insert(k, v);
            assert forall|x: Seq<u8>| map_of(after).contains_key(x) == m.contains_key(x) by {
                if map_of(after).contains_key(x) {
                    let a = choose|a: int| 0 <= a < after.len() && #[trigger] after[a].0 == x;
                    if found {
                        assert(before[a].0 == x);
                    } else if a < i {
                        assert(before[a].0 == x);
                    } else if a > i {
                        assert(before[a - 1].0 == x);
                    }
                }
                if map_of(before).contains_key(x) {
                    let a = choose|a: int| 0 <= a < before.len() && #[trigger] before[a].0 == x;
                    if found || a < i {
                        assert(after[a].0 == x);
                    } else {
                        assert(after[a + 1].0 == x);
                    }
                }
                assert(after[i as int].0 == k);
            }
            assert forall|x: Seq<u8>| m.contains_key(x) implies map_of(after)[x] == m[x] by {
                let a = choose|a: int| 0 <= a < after.len() && #[trigger] after[a].0 == x;
                assert(map_of(after)[after[a].0] == after[a].1);
                if a == i {
                } else if found || a < i {
                    assert(map_of(before)[before[a].0] == before[a].1);
                    lemma_lex_irreflexive(k);
                } else {
                    assert(map_of(before)[before[a - 1].0] == before[a - 1].1);
                    lemma_lex_irreflexive(k);
                }
            }
            assert(map_of(after) =~= m);
        }
        self.entries = entries;
    }

    /// Forgets every write.
    pub fn clear(&mut self)
        ensures
            final(self)@ == Map::<Seq<u8>, Option<Seq<u8>>>::empty(),
            final(self).consistent(),
    {
        let mut entries: Vec<(Bytes, Option<Bytes>)> = Vec::new();
        std::mem::swap(&mut entries, &mut self.entries);
        entries.clear();
        assert(entries_view(entries@).len() == 0);
        self.entries = entries;
    }
}

/// Entries are keys with their values, in order.
pub proof fn law_entries_are_keys_with_values(s: Seq<(Bytes, Option<Bytes>)>)
    ensures
        entries_view(s).len() == s.len(),
        forall|i: int|
            0 <= i < s.len() ==> (#[trigger] entries_view(s)[i]).0 == bytes_view(s[i].0)
                && entries_view(s)[i].1 == value_view(s[i].1),
{
}

/// The last entry of a list that has a key says what is written to it.
pub proof fn law_last_entry_counts(e: EntriesModel, key: Seq<u8>, value: Option<Seq<u8>>)
    ensures
        map_of(Seq::empty()).dom() == Set::<Seq<u8>>::empty(),
        map_of(e.push((key, value))) == map_of(e).insert(key, value),
{
    assert(e.push((key, value)).drop_last() =~= e);
    assert(map_of(Seq::empty()).dom() =~= Set::<Seq<u8>>::empty());
}

} // verus!
