//! The producer and consumer handles of a bounded single-producer /
//! single-consumer queue.
//!
//! Both handles share one [`Inner`] ring. Each operation takes the ring under
//! a verified reader-writer lock (a spin lock) for the duration of one
//! enqueue or dequeue, so every operation sees the ring in a well-formed state
//! and leaves it so. The queue is therefore not lock-free: an operation may
//! wait, spinning, while the other side holds the ring for its own operation.
use std::sync::Arc;
use vstd::prelude::*;
use vstd::rwlock::{RwLock, RwLockPredicate};
use crate::ring::{Inner, is_possible_recv, is_rounded_capacity, recv_result};

verus! {

/// What every ring stored in a channel satisfies: it is well formed and keeps
/// the capacity it was created with.
pub struct RingPred {
    pub capacity: Ghost<nat>,
}

impl<T> RwLockPredicate<Inner<T>> for RingPred {
    open spec fn inv(self, ring: Inner<T>) -> bool {
        ring.capacity() == self.capacity@
    }
}

/// Producer handle. Not `Clone`: only one producer is permitted.
pub struct Producer<T> {
    inner: Arc<RwLock<Inner<T>, RingPred>>,
}

/// Consumer handle. Not `Clone`: only one consumer is permitted.
pub struct Consumer<T> {
    inner: Arc<RwLock<Inner<T>, RingPred>>,
}

impl<T> Producer<T> {
    /// The number of items the channel holds at most.
    pub closed spec fn capacity(&self) -> nat {
        self.inner.pred().capacity@
    }
}

impl<T> Consumer<T> {
    /// The number of items the channel holds at most.
    pub closed spec fn capacity(&self) -> nat {
        self.inner.pred().capacity@
    }
}

/// The producer and the consumer are the two ends of one channel: they share
/// one ring.
pub closed spec fn connected<T>(p: &Producer<T>, c: &Consumer<T>) -> bool {
    p.inner == c.inner
}

/// `std::sync::Arc::clone`: a second handle to the same allocation. Verus sees
/// an `Arc` as the value it points to, so the clone equals the original.
#[verifier::external_body]
fn share<V>(shared: &Arc<V>) -> (copy: Arc<V>)
    ensures
        copy == *shared,
{
    Arc::clone(shared)
}

/// Create a bounded SPSC queue with capacity rounded up to the next power of two.
///
/// `capacity` must be positive and at most `usize::MAX / 2`.
pub fn channel<T>(capacity: usize) -> (ends: (Producer<T>, Consumer<T>))
    requires
        0 < capacity <= usize::MAX / 2,
    ensures
        is_rounded_capacity(capacity as nat, ends.0.capacity()),
        ends.1.capacity() == ends.0.capacity(),
        connected(&ends.0, &ends.1),
{
    let ring = Inner::<T>::new(capacity);
    let ghost pred = RingPred { capacity: Ghost(ring.capacity()) };
    let lock = RwLock::new(ring, Ghost(pred));
    let inner = Arc::new(lock);
    let producer = Producer { inner: share(&inner) };
    let consumer = Consumer { inner };
    (producer, consumer)
}

impl<T> Producer<T> {
    /// Attempt to enqueue `value`. Returns `Err(value)` if the queue is full.
    pub fn try_send(&self, value: T) -> (r: Result<(), T>)
        ensures
            r matches Err(v) ==> v == value,
    {
        let (mut ring, handle) = self.inner.acquire_write();
        let r = ring.try_send(value);
        handle.release_write(ring);
        r
    }
}

impl<T> Consumer<T> {
    /// Attempt to dequeue a value. Returns `None` if the queue is empty.
    ///
    /// The ring is shared with the producer, so which value comes out depends
    /// on what the producer has sent meanwhile, and this contract promises
    /// nothing about it beyond the type: its clause, that the result is what a
    /// dequeue returns from some queue of this channel's capacity, holds of
    /// every `Option<T>` once the capacity is at least 1. The exact behaviour,
    /// the oldest queued item or `None` exactly when the queue is empty, is
    /// the contract of `Inner::try_recv`, which this function calls under the
    /// lock.
    pub fn try_recv(&self) -> (r: Option<T>)
        ensures
            is_possible_recv(r, self.capacity()),
    {
        let (mut ring, handle) = self.inner.acquire_write();
        let ghost queue = ring@;
        let r = ring.try_recv();
        assert(queue.len() <= self.capacity() && r == recv_result(queue));
        handle.release_write(ring);
        r
    }
}

} // verus!
