//! A bounded pool of reusable payload buffers.

use vstd::prelude::*;
use crossbeam_queue::ArrayQueue;

verus! {

#[verifier::external_type_specification]
#[verifier::external_body]
#[verifier::reject_recursive_types(T)]
pub struct ExArrayQueue<T>(ArrayQueue<T>);

/// The buffers in a queue, oldest first.
pub uninterp spec fn queued(q: ArrayQueue<Vec<u8>>) -> Seq<Vec<u8>>;

/// The number of buffers a queue can hold.
pub uninterp spec fn queue_bound(q: ArrayQueue<Vec<u8>>) -> nat;

/// Relies on `ArrayQueue::new`: an empty queue that holds `cap` items; it panics on
/// a zero capacity (and on capacities near the address-space size).
#[verifier::external_body]
fn queue_new(cap: usize) -> (r: ArrayQueue<Vec<u8>>)
    requires
        0 < cap <= 0x4000_0000,
    ensures
        queued(r) == Seq::<Vec<u8>>::empty(),
        queue_bound(r) == cap,
{
    ArrayQueue::new(cap)
}

/// Relies on `ArrayQueue::push_mut`: appends at the tail, or hands the item back when
/// the queue is full.
#[verifier::external_body]
fn queue_push(q: &mut ArrayQueue<Vec<u8>>, v: Vec<u8>) -> (r: Option<Vec<u8>>)
    ensures
        queue_bound(*final(q)) == queue_bound(*old(q)),
        queued(*old(q)).len() < queue_bound(*old(q)) ==> r is None && queued(*final(q)) == queued(*old(q)).push(v),
        queued(*old(q)).len() >= queue_bound(*old(q)) ==> r == Some(v) && queued(*final(q)) == queued(*old(q)),
{
    q.push_mut(v).err()
}

/// Relies on `ArrayQueue::pop_mut`: removes the item at the head, if any.
#[verifier::external_body]
fn queue_pop(q: &mut ArrayQueue<Vec<u8>>) -> (r: Option<Vec<u8>>)
    ensures
        queue_bound(*final(q)) == queue_bound(*old(q)),
        queued(*old(q)).len() == 0 ==> r is None && queued(*final(q)) == queued(*old(q)),
        queued(*old(q)).len() > 0 ==> r == Some(queued(*old(q))[0]) && queued(*final(q)) == queued(*old(q)).drop_first(),
{
    q.pop_mut()
}

/// Pre-allocated payload buffers; acquiring one that is not there allocates.
pub struct PayloadPool {
    queue: ArrayQueue<Vec<u8>>,
    buf_capacity: usize,
}

pub const POOL_SLOTS: usize = 1024;
pub const POOL_BUFFER_CAPACITY: usize = 1400;
pub const POOL_PREALLOCATED: usize = 64;

impl PayloadPool {
    /// The buffers held now.
    pub closed spec fn held(&self) -> Seq<Vec<u8>> {
        queued(self.queue)
    }

    /// The most buffers it holds.
    pub closed spec fn slots(&self) -> nat {
        queue_bound(self.queue)
    }

    /// A pool of `pool_size` slots, with up to 64 buffers of `buf_capacity` bytes
    /// allocated up front.
    pub fn with_capacity(pool_size: usize, buf_capacity: usize) -> (r: Self)
        requires
            0 < pool_size <= 0x4000_0000,
        ensures
            r.slots() == pool_size,
            r.held().len() == if pool_size < 64 { pool_size } else { 64 },
            forall|i: int| 0 <= i < r.held().len() ==> (#[trigger] r.held()[i])@.len() == 0,
    {
        let mut queue = queue_new(pool_size);
        let n: usize = if pool_size < POOL_PREALLOCATED { pool_size } else { POOL_PREALLOCATED };
        let mut i: usize = 0;
        while i < n
            invariant
                i <= n <= pool_size,
                queue_bound(queue) == pool_size,
                queued(queue).len() == i,
                forall|k: int| 0 <= k < i ==> (#[trigger] queued(queue)[k])@.len() == 0,
            decreases n - i,
        {
            let b: Vec<u8> = Vec::with_capacity(buf_capacity);
            let ghost before = queued(queue);
            let _ = queue_push(&mut queue, b);
            assert forall|k: int| 0 <= k < i + 1 implies (#[trigger] queued(queue)[k])@.len() == 0 by {
                if k < i {
                    assert(queued(queue)[k] == before[k]);
                }
            }
            i = i + 1;
        }
        PayloadPool { queue, buf_capacity }
    }

    /// An empty buffer: the oldest pooled one, or a new one.
    pub fn acquire_buffer(&mut self, min_len: usize) -> (r: Vec<u8>)
        ensures
            r@.len() == 0,
            final(self).slots() == old(self).slots(),
            old(self).held().len() > 0 ==> final(self).held() == old(self).held().drop_first(),
            old(self).held().len() == 0 ==> final(self).held() == old(self).held(),
    {
        match queue_pop(&mut self.queue) {
            Some(mut buf) => {
                buf.clear();
                buf
            },
            None => {
                let cap = if min_len > self.buf_capacity { min_len } else { self.buf_capacity };
                Vec::with_capacity(cap)
            },
        }
    }

    /// Returns a buffer, emptied, to the pool; it is dropped when the pool is full.
    pub fn release_buffer(&mut self, buf: Vec<u8>)
        ensures
            final(self).slots() == old(self).slots(),
            old(self).held().len() < old(self).slots() ==> final(self).held().len() == old(self).held().len() + 1
                && final(self).held().last()@.len() == 0,
            old(self).held().len() >= old(self).slots() ==> final(self).held() == old(self).held(),
    {
        let mut b = buf;
        b.clear();
        let _ = queue_push(&mut self.queue, b);
    }
}

} // verus!
