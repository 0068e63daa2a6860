//! The keys that were written lately and wait for collection: a `crossbeam_queue::SegQueue`.

use bytes::Bytes;
use crossbeam_queue::SegQueue;
use vstd::prelude::*;

use crate::kv::bytes_view;

verus! {

/// `crossbeam_queue::SegQueue`: an unbounded first-in first-out queue. Opaque here; what a queue
/// of keys holds is `dirty_view`.
#[verifier::external_type_specification]
#[verifier::external_body]
#[verifier::reject_recursive_types(T)]
pub struct ExSegQueue<T>(SegQueue<T>);

/// The keys in a queue, the one to leave next first.
pub uninterp spec fn dirty_view(q: SegQueue<Bytes>) -> Seq<Seq<u8>>;

/// Calls `SegQueue::new`, which makes an empty queue.
#[verifier::external_body]
pub(crate) fn dirty_new() -> (r: SegQueue<Bytes>)
    ensures
        dirty_view(r) == Seq::<Seq<u8>>::empty(),
{
    SegQueue::new()
}

/// Calls `SegQueue::push`, which puts a key at the end.
#[verifier::external_body]
pub(crate) fn dirty_push(q: &mut SegQueue<Bytes>, key: Bytes)
    ensures
        dirty_view(*final(q)) == dirty_view(*old(q)).push(bytes_view(key)),
{
    q.push(key)
}

/// Calls `SegQueue::pop`, which takes the key at the front out, where there is one.
#[verifier::external_body]
pub(crate) fn dirty_pop(q: &mut SegQueue<Bytes>) -> (r: Option<Bytes>)
    ensures
        r is None <==> dirty_view(*old(q)).len() == 0,
        r is None ==> dirty_view(*final(q)) == dirty_view(*old(q)),
        r matches Some(k) ==> bytes_view(k) == dirty_view(*old(q))[0] && dirty_view(*final(q))
            == dirty_view(*old(q)).skip(1),
{
    q.pop()
}

} // verus!
