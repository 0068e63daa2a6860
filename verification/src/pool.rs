//! Finished transactions that are kept for reuse: a bounded `crossbeam_queue::ArrayQueue`.

use crossbeam_queue::ArrayQueue;
use vstd::prelude::*;

use crate::inner::Inner;
use crate::model::TxState;
use crate::tx::TransactionInner;

verus! {

/// `crossbeam_queue::ArrayQueue`: a bounded first-in first-out queue. Opaque here; what a queue of
/// transactions holds is `pool_view`, and how many it has room for is `pool_capacity`.
#[verifier::external_type_specification]
#[verifier::external_body]
#[verifier::reject_recursive_types(T)]
pub struct ExArrayQueue<T>(ArrayQueue<T>);

/// The transactions in a queue, the one to leave next first.
pub uninterp spec fn pool_view(q: ArrayQueue<TransactionInner>) -> Seq<TransactionInner>;

/// How many transactions a queue has room for.
pub uninterp spec fn pool_capacity(q: ArrayQueue<TransactionInner>) -> nat;

/// Calls `ArrayQueue::new`, which makes an empty queue of this size. It takes no size of 0, and
/// sets the memory for all of it aside at once.
#[verifier::external_body]
fn queue_new(size: usize) -> (r: ArrayQueue<TransactionInner>)
    requires
        0 < size,
    ensures
        pool_view(r).len() == 0,
        pool_capacity(r) == size,
{
    ArrayQueue::new(size)
}

/// Calls `ArrayQueue::push`, which puts a transaction at the end, or hands it back where the
/// queue is full; then it is dropped.
#[verifier::external_body]
fn queue_push(q: &mut ArrayQueue<TransactionInner>, tx: TransactionInner)
    ensures
        pool_capacity(*final(q)) == pool_capacity(*old(q)),
        pool_view(*final(q)) == (if pool_view(*old(q)).len() < pool_capacity(*old(q)) {
            pool_view(*old(q)).push(tx)
        } else {
            pool_view(*old(q))
        }),
{
    let _ = q.push(tx);
}

/// Calls `ArrayQueue::pop`, which takes the transaction at the front out, where there is one.
#[verifier::external_body]
fn queue_pop(q: &mut ArrayQueue<TransactionInner>) -> (r: Option<TransactionInner>)
    ensures
        pool_capacity(*final(q)) == pool_capacity(*old(q)),
        r is None <==> pool_view(*old(q)).len() == 0,
        r is None ==> pool_view(*final(q)) == pool_view(*old(q)),
        r matches Some(tx) ==> tx == pool_view(*old(q))[0] && pool_view(*final(q)) == pool_view(
            *old(q),
        ).skip(1),
{
    q.pop()
}

/// Keeps finished transactions for reuse.
pub struct Pool {
    queue: Option<ArrayQueue<TransactionInner>>,
}

impl Pool {
    /// The transactions that are kept.
    pub closed spec fn kept(&self) -> Seq<TransactionInner> {
        match self.queue {
            Some(q) => pool_view(q),
            None => Seq::empty(),
        }
    }

    /// How many transactions are kept at most.
    pub closed spec fn capacity(&self) -> nat {
        match self.queue {
            Some(q) => pool_capacity(q),
            None => 0,
        }
    }

    /// The transactions that are kept once `inner` was put back, too.
    pub open spec fn kept_with(&self, inner: TransactionInner) -> Seq<TransactionInner> {
        if self.kept().len() < self.capacity() {
            self.kept().push(inner)
        } else {
            self.kept()
        }
    }

    /// The transactions that are kept once one was taken, where there was one.
    pub open spec fn kept_without(&self) -> Seq<TransactionInner> {
        if self.kept().len() > 0 {
            self.kept().skip(1)
        } else {
            self.kept()
        }
    }

    /// An empty pool that keeps up to `size` transactions.
    pub fn new(size: usize) -> (r: Self)
        ensures
            r.kept().len() == 0,
            r.capacity() == size,
    {
        if size == 0 {
            Pool { queue: None }
        } else {
            Pool { queue: Some(queue_new(size)) }
        }
    }

    /// Keeps a finished transaction, unless the pool is full.
    pub fn put(&mut self, inner: TransactionInner)
        ensures
            final(self).capacity() == old(self).capacity(),
            final(self).kept() == old(self).kept_with(inner),
    {
        match self.queue.take() {
            Some(q) => {
                let mut q = q;
                queue_push(&mut q, inner);
                self.queue = Some(q);
            },
            None => {},
        }
    }

    /// A transaction that begins now: one that was kept, or a new one.
    pub fn get(&mut self, db: &mut Inner, write: bool) -> (r: TransactionInner)
        requires
            old(db).wf(),
            old(db)@.can_begin(),
        ensures
            r.wf(),
            r@ == TxState::opened(old(db)@, write),
            final(db)@ == old(db)@.begun(),
            final(db).wf(),
            final(db)@.registered(r@),
            final(db).same_setup(*old(db)),
            final(self).capacity() == old(self).capacity(),
            final(self).kept() == old(self).kept_without(),
    {
        let found = match self.queue.take() {
            Some(q) => {
                let mut q = q;
                let found = queue_pop(&mut q);
                self.queue = Some(q);
                found
            },
            None => None,
        };
        match found {
            Some(tx) => {
                let mut tx = tx;
                tx.reset(db, write);
                tx
            },
            None => TransactionInner::new(db, write),
        }
    }
}

/// A pool keeps what it is given as long as it has room, behind what it has, and hands out what it
/// has had the longest.
pub proof fn law_pool_is_a_bounded_queue(pool: Pool, inner: TransactionInner)
    ensures
        pool.kept().len() < pool.capacity() ==> pool.kept_with(inner) == pool.kept().push(inner),
        pool.kept().len() >= pool.capacity() ==> pool.kept_with(inner) == pool.kept(),
        pool.kept().len() > 0 ==> pool.kept() == seq![pool.kept()[0]] + pool.kept_without(),
        pool.kept().len() == 0 ==> pool.kept_without().len() == 0,
{
    if pool.kept().len() > 0 {
        assert(pool.kept() =~= seq![pool.kept()[0]] + pool.kept_without());
    }
}

} // verus!
