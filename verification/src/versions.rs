//! The version chain of one key.

use bytes::Bytes;
use smallvec::SmallVec;
use vstd::prelude::*;

use crate::chain::{
    chain_gc, chain_push, chain_sorted, lemma_gc_sorted, lemma_lte_index, lemma_lte_index_unique,
    lemma_push_sorted, lte_index, read_at, ChainModel,
};
use crate::kv::{same_value, value_clone, value_view};

verus! {

/// A value and the version it was written at.
pub struct Version {
    /// The version, handed out by the oracle.
    pub version: u64,
    /// The value, or `None` for a deletion.
    pub value: Option<Bytes>,
}

impl View for Version {
    type V = (u64, Option<Seq<u8>>);

    open spec fn view(&self) -> (u64, Option<Seq<u8>>) {
        (self.version, value_view(self.value))
    }
}

impl vstd::std_specs::cmp::PartialEqSpecImpl for Version {
    open spec fn obeys_eq_spec() -> bool {
        true
    }

    open spec fn eq_spec(&self, other: &Version) -> bool {
        self@ == other@
    }
}

impl PartialEq for Version {
    fn eq(&self, other: &Version) -> (r: bool) {
        self.version == other.version && same_value(&self.value, &other.value)
    }
}

impl vstd::std_specs::cmp::PartialOrdSpecImpl for Version {
    open spec fn obeys_partial_cmp_spec() -> bool {
        true
    }

    open spec fn partial_cmp_spec(&self, other: &Version) -> Option<std::cmp::Ordering> {
        if self.version < other.version {
            Some(std::cmp::Ordering::Less)
        } else if self.version > other.version {
            Some(std::cmp::Ordering::Greater)
        } else {
            Some(std::cmp::Ordering::Equal)
        }
    }
}

impl PartialOrd for Version {
    /// Versions are ordered by their numbers alone.
    fn partial_cmp(&self, other: &Version) -> (r: Option<std::cmp::Ordering>) {
        if self.version < other.version {
            Some(std::cmp::Ordering::Less)
        } else if self.version > other.version {
            Some(std::cmp::Ordering::Greater)
        } else {
            Some(std::cmp::Ordering::Equal)
        }
    }
}

impl Clone for Version {
    fn clone(&self) -> (r: Self)
        ensures
            r@ == self@,
    {
        Version { version: self.version, value: value_clone(&self.value) }
    }
}

/// The run of versions that a chain is made of: a `SmallVec` that holds up to four of them in
/// place.
#[verifier::external_body]
pub struct Chain {
    items: SmallVec<[Version; 4]>,
}

/// What a `Chain` holds, in order.
pub uninterp spec fn chain_view(c: Chain) -> Seq<(u64, Option<Seq<u8>>)>;

impl Chain {
    /// Calls `SmallVec::new`, which makes an empty vector.
    #[verifier::external_body]
    fn new() -> (r: Chain)
        ensures
            chain_view(r).len() == 0,
    {
        Chain { items: SmallVec::new() }
    }

    /// Calls `SmallVec::len`, which gives the number of items.
    #[verifier::external_body]
    fn len(&self) -> (r: usize)
        ensures
            r == chain_view(*self).len(),
    {
        self.items.len()
    }

    /// Calls `SmallVec::index`, which borrows the item at a position.
    #[verifier::external_body]
    fn get(&self, i: usize) -> (r: &Version)
        requires
            i < chain_view(*self).len(),
        ensures
            r@ == chain_view(*self)[i as int],
    {
        &self.items[i]
    }

    /// Calls `SmallVec::push`, which appends one item.
    #[verifier::external_body]
    fn push(&mut self, v: Version)
        ensures
            chain_view(*final(self)) == chain_view(*old(self)).push(v@),
    {
        self.items.push(v)
    }

    /// Calls `SmallVec::insert`, which puts an item at a position and moves those from there on
    /// up by one.
    #[verifier::external_body]
    fn insert(&mut self, i: usize, v: Version)
        requires
            i <= chain_view(*old(self)).len(),
        ensures
            chain_view(*final(self)) == chain_view(*old(self)).insert(i as int, v@),
    {
        self.items.insert(i, v)
    }

    /// Calls `SmallVec::index_mut` and replaces the item at a position.
    #[verifier::external_body]
    fn set(&mut self, i: usize, v: Version)
        requires
            i < chain_view(*old(self)).len(),
        ensures
            chain_view(*final(self)) == chain_view(*old(self)).update(i as int, v@),
    {
        self.items[i] = v;
    }

    /// Calls `SmallVec::drain` on the range of positions from `start` up to `end`, and drops the
    /// items that it takes out.
    #[verifier::external_body]
    fn drain(&mut self, start: usize, end: usize)
        requires
            start <= end <= chain_view(*old(self)).len(),
        ensures
            chain_view(*final(self)) == chain_view(*old(self)).take(start as int)
                + chain_view(*old(self)).skip(end as int),
    {
        self.items.drain(start..end);
    }

    /// Calls `SmallVec::capacity`. How much has been allocated is left open.
    #[verifier::external_body]
    fn capacity(&self) -> (r: usize) {
        self.items.capacity()
    }

    /// Calls `SmallVec::shrink_to_fit`, which gives unused memory back and keeps the items.
    #[verifier::external_body]
    fn shrink_to_fit(&mut self)
        ensures
            chain_view(*final(self)) == chain_view(*old(self)),
    {
        self.items.shrink_to_fit()
    }
}

/// What is to be done with a write that is not newer than the whole chain.
pub enum IndexOrUpdate {
    /// Nothing: it changes no read.
    Ignore,
    /// Insert it at this position.
    Index(usize),
    /// Replace the value of the entry at this position.
    Update(usize),
}

/// The versions of one key, oldest first.
pub struct Versions {
    inner: Chain,
}

impl View for Versions {
    type V = ChainModel;

    closed spec fn view(&self) -> ChainModel {
        chain_view(self.inner)
    }
}

impl vstd::std_specs::convert::FromSpecImpl<Version> for Versions {
    open spec fn obeys_from_spec() -> bool {
        false
    }

    open spec fn from_spec(version: Version) -> Versions {
        choose|r: Versions| r@ == seq![version@]
    }
}

impl From<Version> for Versions {
    /// A chain that holds one version.
    fn from(version: Version) -> (r: Self)
        ensures
            r@ == seq![version@],
            r.wf(),
    {
        let mut inner = Chain::new();
        inner.push(version);
        let r = Versions { inner };
        assert(r@ =~= seq![version@]);
        r
    }
}

impl Versions {
    /// The versions ascend strictly.
    pub open spec fn wf(&self) -> bool {
        chain_sorted(self@)
    }

    /// An empty chain.
    pub fn new() -> (r: Self)
        ensures
            r@.len() == 0,
            r.wf(),
    {
        Versions { inner: Chain::new() }
    }

    /// A chain that holds the same versions.
    pub fn duplicate(&self) -> (r: Self)
        ensures
            r@ == self@,
    {
        let n: usize = self.inner.len();
        let mut inner = Chain::new();
        let mut i: usize = 0;
        while i < n
            invariant
                i <= n == self@.len(),
                chain_view(inner) == self@.take(i as int),
            decreases n - i,
        {
            let v = self.inner.get(i);
            inner.push(Version { version: v.version, value: value_clone(&v.value) });
            assert(chain_view(inner) =~= self@.take(i + 1));
            i += 1;
        }
        assert(self@.take(n as int) =~= self@);
        Versions { inner }
    }

    /// The number of versions.
    pub fn len(&self) -> (r: usize)
        ensures
            r == self@.len(),
    {
        self.inner.len()
    }

    /// The version at a position.
    pub fn get(&self, i: usize) -> (r: &Version)
        requires
            i < self@.len(),
        ensures
            r@ == self@[i as int],
    {
        self.inner.get(i)
    }

    /// Writes a version. A value that repeats the one it would follow is dropped, and so is a
    /// deletion that nothing precedes; a value at a version that is there replaces the older one.
    pub fn push(&mut self, value: Version)
        requires
            old(self).wf(),
        ensures
            final(self)@ == chain_push(old(self)@, value@.0, value@.1),
            final(self).wf(),
    {
        proof {
            lemma_lte_index(self@, value.version as int);
            lemma_push_sorted(self@, value@.0, value@.1);
        }
        let n: usize = self.inner.len();
        if n == 0 {
            if value.value.is_some() {
                self.inner.push(value);
                assert(self@ =~= chain_push(old(self)@, value@.0, value@.1));
            }
            return;
        }
        let last = self.inner.get(n - 1);
        if value.version > last.version {
            proof {
                lemma_lte_index_unique(self@, value.version as int, n as int);
            }
            if !same_value(&value.value, &last.value) {
                self.inner.push(value);
                assert(self@ =~= chain_push(old(self)@, value@.0, value@.1));
            }
            return;
        }
        if value.version == last.version {
            proof {
                lemma_lte_index_unique(self@, value.version as int, n as int);
            }
            if !same_value(&value.value, &last.value) {
                self.inner.set(n - 1, value);
            }
            return;
        }
        match self.fetch_index_or_update(&value) {
            IndexOrUpdate::Ignore => {},
            IndexOrUpdate::Index(idx) => {
                self.inner.insert(idx, value);
            },
            IndexOrUpdate::Update(idx) => {
                self.inner.set(idx, value);
            },
        }
    }

    /// Where a write goes in the chain.
    pub fn fetch_index_or_update(&self, value: &Version) -> (r: IndexOrUpdate)
        requires
            self.wf(),
        ensures
            r is Ignore <==> chain_push(self@, value@.0, value@.1) == self@,
            r matches IndexOrUpdate::Index(i) ==> i <= self@.len() && chain_push(
                self@,
                value@.0,
                value@.1,
            ) == self@.insert(i as int, value@),
            r matches IndexOrUpdate::Update(i) ==> i < self@.len() && self@[i as int].0
                == value.version && chain_push(self@, value@.0, value@.1) == self@.update(
                i as int,
                value@,
            ),
    {
        proof {
            lemma_lte_index(self@, value.version as int);
        }
        let idx: usize = self.find_index_lte_version(value.version);
        if idx == 0 {
            if value.value.is_none() {
                return IndexOrUpdate::Ignore;
            }
            return IndexOrUpdate::Index(idx);
        }
        let existing = self.inner.get(idx - 1);
        if existing.version == value.version {
            if same_value(&existing.value, &value.value) {
                return IndexOrUpdate::Ignore;
            }
            assert(self@.update(idx - 1, value@)[idx - 1] == value@);
            return IndexOrUpdate::Update(idx - 1);
        }
        if same_value(&existing.value, &value.value) {
            return IndexOrUpdate::Ignore;
        }
        IndexOrUpdate::Index(idx)
    }

    /// Takes the versions from position `start` up to `end` out, and gives memory back when far
    /// more of it is held than the rest needs.
    pub fn drain(&mut self, start: usize, end: usize)
        requires
            start <= end <= old(self)@.len(),
        ensures
            final(self)@ == old(self)@.take(start as int) + old(self)@.skip(end as int),
            old(self).wf() ==> final(self).wf(),
    {
        self.inner.drain(start, end);
        let n: usize = self.inner.len();
        let kept: usize = if n < 4 {
            4
        } else {
            n
        };
        let bound: usize = if kept > usize::MAX / 2 {
            usize::MAX
        } else {
            kept * 2
        };
        if self.inner.capacity() > bound {
            self.inner.shrink_to_fit();
        }
    }

    /// The position that parts the chain: versions before it are below `version`, the others are
    /// not.
    pub fn find_index_lt_version(&self, version: u64) -> (r: usize)
        requires
            self.wf(),
        ensures
            r == lte_index(self@, version - 1),
    {
        let n: usize = self.inner.len();
        if n > 0 && version > self.inner.get(n - 1).version {
            return n;
        }
        if n <= 4 {
            let mut i: usize = n;
            while i > 0 && self.inner.get(i - 1).version >= version
                invariant
                    i <= n == self@.len(),
                    forall|j: int| i <= j < n ==> self@[j].0 >= version,
                decreases i,
            {
                i -= 1;
            }
            proof {
                lemma_lte_index_unique(self@, version - 1, i as int);
            }
            i
        } else {
            let mut lo: usize = 0;
            let mut hi: usize = n;
            while lo < hi
                invariant
                    lo <= hi <= n == self@.len(),
                    self.wf(),
                    forall|j: int| 0 <= j < lo ==> self@[j].0 < version,
                    forall|j: int| hi <= j < n ==> self@[j].0 >= version,
                decreases hi - lo,
            {
                let mid: usize = lo + (hi - lo) / 2;
                if self.inner.get(mid).version < version {
                    lo = mid + 1;
                } else {
                    hi = mid;
                }
            }
            proof {
                lemma_lte_index_unique(self@, version - 1, lo as int);
            }
            lo
        }
    }

    /// The position that parts the chain: versions before it are at most `version`, the others
    /// are later.
    pub fn find_index_lte_version(&self, version: u64) -> (r: usize)
        requires
            self.wf(),
        ensures
            r == lte_index(self@, version as int),
    {
        let n: usize = self.inner.len();
        if n > 0 && version >= self.inner.get(n - 1).version {
            return n;
        }
        if n <= 4 {
            let mut i: usize = n;
            while i > 0 && self.inner.get(i - 1).version > version
                invariant
                    i <= n == self@.len(),
                    forall|j: int| i <= j < n ==> self@[j].0 > version,
                decreases i,
            {
                i -= 1;
            }
            proof {
                lemma_lte_index_unique(self@, version as int, i as int);
            }
            i
        } else {
            let mut lo: usize = 0;
            let mut hi: usize = n;
            while lo < hi
                invariant
                    lo <= hi <= n == self@.len(),
                    self.wf(),
                    forall|j: int| 0 <= j < lo ==> self@[j].0 <= version,
                    forall|j: int| hi <= j < n ==> self@[j].0 > version,
                decreases hi - lo,
            {
                let mid: usize = lo + (hi - lo) / 2;
                if self.inner.get(mid).version <= version {
                    lo = mid + 1;
                } else {
                    hi = mid;
                }
            }
            proof {
                lemma_lte_index_unique(self@, version as int, lo as int);
            }
            lo
        }
    }

    /// The value that is visible at `version`.
    pub fn fetch_version(&self, version: u64) -> (r: Option<Bytes>)
        requires
            self.wf(),
        ensures
            value_view(r) == read_at(self@, version as int),
    {
        proof {
            lemma_lte_index(self@, version as int);
        }
        let idx: usize = self.find_index_lte_version(version);
        if idx > 0 {
            value_clone(&self.inner.get(idx - 1).value)
        } else {
            None
        }
    }

    /// Whether a value is visible at `version`.
    pub fn exists_version(&self, version: u64) -> (r: bool)
        requires
            self.wf(),
        ensures
            r == (read_at(self@, version as int) is Some),
    {
        proof {
            lemma_lte_index(self@, version as int);
        }
        let idx: usize = self.find_index_lte_version(version);
        if idx > 0 {
            self.inner.get(idx - 1).value.is_some()
        } else {
            false
        }
    }

    /// The whole chain, oldest first, as plain pairs.
    pub fn all_versions(&self) -> (r: Vec<(u64, Option<Bytes>)>)
        ensures
            pairs_view(r@) == self@,
    {
        let n: usize = self.inner.len();
        let mut out: Vec<(u64, Option<Bytes>)> = Vec::new();
        let mut i: usize = 0;
        while i < n
            invariant
                i <= n == self@.len(),
                out@.len() == i,
                forall|j: int| 0 <= j < i ==> (#[trigger] out@[j]).0 == self@[j].0 && value_view(
                    out@[j].1,
                ) == self@[j].1,
            decreases n - i,
        {
            let v = self.inner.get(i);
            out.push((v.version, value_clone(&v.value)));
            i += 1;
        }
        assert(pairs_view(out@) =~= self@);
        out
    }

    /// Drops what nobody at or after `version` can see, and returns how many versions are left.
    pub fn gc_older_versions(&mut self, version: u64) -> (r: usize)
        requires
            old(self).wf(),
        ensures
            final(self)@ == chain_gc(old(self)@, version),
            final(self).wf(),
            r == final(self)@.len(),
    {
        proof {
            lemma_lte_index(self@, version as int);
            lemma_gc_sorted(self@, version);
        }
        let lte: usize = self.find_index_lte_version(version);
        if lte == 0 {
            return self.inner.len();
        }
        let visible: usize = lte - 1;
        if self.inner.get(visible).value.is_none() {
            self.drain(0, lte);
        } else {
            self.drain(0, visible);
        }
        assert(self@ =~= chain_gc(old(self)@, version));
        self.inner.len()
    }
}

/// What a list of versions and values stands for.
pub open spec fn pairs_view(s: Seq<(u64, Option<Bytes>)>) -> ChainModel {
    Seq::new(s.len(), |i: int| (s[i].0, value_view(s[i].1)))
}

/// Pairs are versions with their values, in order.
pub proof fn law_pairs_are_versions_with_values(s: Seq<(u64, Option<Bytes>)>)
    ensures
        pairs_view(s).len() == s.len(),
        forall|i: int|
            0 <= i < s.len() ==> (#[trigger] pairs_view(s)[i]).0 == s[i].0 && pairs_view(s)[i].1
                == value_view(s[i].1),
{
}

} // verus!
