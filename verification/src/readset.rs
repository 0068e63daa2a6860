//! The keys that a transaction has read: a `papaya::HashSet`.

use bytes::Bytes;
use papaya::HashSet;
use vstd::prelude::*;

use crate::kv::bytes_view;

verus! {

/// `papaya::HashSet`: a hash set. Opaque here; what a set of keys holds is `keyset_view`.
#[verifier::external_type_specification]
#[verifier::external_body]
#[verifier::reject_recursive_types(K)]
#[verifier::reject_recursive_types(S)]
pub struct ExHashSet<K, S>(HashSet<K, S>);

/// The keys in a set.
pub uninterp spec fn keyset_view(s: HashSet<Bytes>) -> Set<Seq<u8>>;

/// Calls `HashSet::new`, which makes an empty set.
#[verifier::external_body]
pub(crate) fn keyset_new() -> (r: HashSet<Bytes>)
    ensures
        keyset_view(r) == Set::<Seq<u8>>::empty(),
{
    HashSet::new()
}

/// Calls `HashSetRef::contains` on the pinned set. Keys hash and compare by their bytes.
#[verifier::external_body]
pub(crate) fn keyset_contains(s: &HashSet<Bytes>, key: &[u8]) -> (r: bool)
    ensures
        r == keyset_view(*s).contains(key@),
{
    s.pin().contains(key)
}

/// Calls `HashSetRef::insert` on the pinned set: the key is in the set afterwards. A set counts
/// its keys in a `usize`.
#[verifier::external_body]
pub(crate) fn keyset_insert(s: &mut HashSet<Bytes>, key: Bytes)
    ensures
        keyset_view(*final(s)) == keyset_view(*old(s)).insert(bytes_view(key)),
        keyset_view(*final(s)).finite(),
        keyset_view(*final(s)).len() <= usize::MAX,
{
    s.pin().insert(key);
}

/// Calls `HashSetRef::clear` on the pinned set, which takes every key out.
#[verifier::external_body]
pub(crate) fn keyset_clear(s: &mut HashSet<Bytes>)
    ensures
        keyset_view(*final(s)) == Set::<Seq<u8>>::empty(),
{
    s.pin().clear()
}

/// Calls `HashSetRef::len` on the pinned set, which gives the number of keys.
#[verifier::external_body]
pub(crate) fn keyset_len(s: &HashSet<Bytes>) -> (r: usize)
    ensures
        r == keyset_view(*s).len(),
{
    s.pin().len()
}

/// Calls `HashSetRef::is_empty` on the pinned set, which says whether it holds no key.
#[verifier::external_body]
pub(crate) fn keyset_is_empty(s: &HashSet<Bytes>) -> (r: bool)
    ensures
        r == (keyset_view(*s) == Set::<Seq<u8>>::empty()),
{
    s.pin().is_empty()
}

/// Calls `HashSetRef::iter` on the pinned set, which yields every key once, in an order that is
/// left open.
#[verifier::external_body]
pub(crate) fn keyset_iter(s: &HashSet<Bytes>) -> (r: Vec<Bytes>)
    ensures
        r@.len() == keyset_view(*s).len(),
        forall|i: int| 0 <= i < r@.len() ==> keyset_view(*s).contains(bytes_view(#[trigger] r@[i])),
        forall|k: Seq<u8>| #[trigger]
            keyset_view(*s).contains(k) ==> exists|i: int|
                0 <= i < r@.len() && bytes_view(#[trigger] r@[i]) == k,
{
    s.pin().iter().cloned().collect()
}

} // verus!
