//! The ring storage: slots, the producer and consumer counters, and the queue
//! they implement.
//!
//! The producer counter `head` and the consumer counter `tail` run freely and
//! wrap around at the machine word. The number of queued items is
//! `head - tail` (wrapping), and the item at queue position `k` lives in slot
//! `(tail + k) mod capacity`, found with the mask `capacity - 1`.
use core::arch::x86_64::__m512i;
use vstd::arithmetic::div_mod::lemma_mod_multiples_vanish;
use vstd::arithmetic::power2::{lemma_pow2_adds, lemma_pow2_pos, lemma_pow2_strictly_increases, lemma_pow2_unfold, pow2};
use vstd::bits::{lemma_usize_low_bits_mask_is_mod, low_bits_mask};
use vstd::prelude::*;
use vstd::wrapping::usize_specs::{wrapping_add, wrapping_sub};

verus! {

/// One slot in the ring, isolated to its own 64-byte cache line.
pub struct RingSlot<T> {
    value: Option<T>,
    line: [__m512i; 0],
}

impl<T> View for RingSlot<T> {
    type V = Option<T>;

    closed spec fn view(&self) -> Option<T> {
        self.value
    }
}

impl<T> RingSlot<T> {
    /// A vacant slot.
    pub fn new() -> (slot: Self)
        ensures
            slot@ is None,
    {
        RingSlot { value: None, line: [] }
    }
}

/// Producer-side index, padded to one cache line.
pub struct Head {
    index: usize,
    line: [__m512i; 0],
}

/// Consumer-side index, padded to one cache line.
pub struct Tail {
    index: usize,
    line: [__m512i; 0],
}

impl View for Head {
    type V = usize;

    closed spec fn view(&self) -> usize {
        self.index
    }
}

impl View for Tail {
    type V = usize;

    closed spec fn view(&self) -> usize {
        self.index
    }
}

/// The number of distinct values of a machine word: the counters wrap here.
pub open spec fn word_modulus() -> int {
    usize::MAX as int + 1
}

/// `n` is a power of two.
pub open spec fn is_power_of_two(n: nat) -> bool {
    exists|k: nat| pow2(k) == n
}

/// `c` is the capacity that a request for `n` slots is rounded up to: the
/// smallest power of two that is at least `n`.
pub open spec fn is_rounded_capacity(n: nat, c: nat) -> bool {
    &&& is_power_of_two(c)
    &&& n <= c
    &&& c < 2 * n
}

/// The queue after an attempt to enqueue `v` when at most `cap` items fit.
pub open spec fn send_step<T>(q: Seq<T>, cap: nat, v: T) -> Seq<T> {
    if q.len() < cap {
        q.push(v)
    } else {
        q
    }
}

/// The queue after an attempt to dequeue.
pub open spec fn recv_step<T>(q: Seq<T>) -> Seq<T> {
    if q.len() == 0 {
        q
    } else {
        q.drop_first()
    }
}

/// What an attempt to dequeue returns.
pub open spec fn recv_result<T>(q: Seq<T>) -> Option<T> {
    if q.len() == 0 {
        None
    } else {
        Some(q[0])
    }
}

/// `r` is what a dequeue returns from some queue that holds at most `cap`
/// items: `None`, or an item that such a queue can hold at its front. For
/// `cap >= 1` every `r` meets it; it says only what kind of value a dequeue
/// can give, not which one.
pub open spec fn is_possible_recv<T>(r: Option<T>, cap: nat) -> bool {
    exists|q: Seq<T>| q.len() <= cap && r == recv_result(q)
}

/// One operation on the queue: an attempt to enqueue a value, or to dequeue.
pub enum QueueOp<T> {
    Send(T),
    Recv,
}

/// Replays `ops` from an empty queue of capacity `cap`, as `try_send` and
/// `try_recv` perform them. Returns the queue left over, the values that were
/// accepted by a send, and the values that were delivered by a receive, each
/// in the order in which it happened.
pub open spec fn replay<T>(cap: nat, ops: Seq<QueueOp<T>>) -> (Seq<T>, Seq<T>, Seq<T>)
    decreases ops.len(),
{
    if ops.len() == 0 {
        (Seq::empty(), Seq::empty(), Seq::empty())
    } else {
        let (q, accepted, delivered) = replay(cap, ops.drop_last());
        match ops.last() {
            QueueOp::Send(v) => {
                if q.len() < cap {
                    (send_step(q, cap, v), accepted.push(v), delivered)
                } else {
                    (send_step(q, cap, v), accepted, delivered)
                }
            },
            QueueOp::Recv => match recv_result(q) {
                Some(v) => (recv_step(q), accepted, delivered.push(v)),
                None => (recv_step(q), accepted, delivered),
            },
        }
    }
}

/// First in, first out: whatever the interleaving of sends and receives, the
/// values delivered so far followed by the values still queued are exactly the
/// values accepted, in the order they were sent; and the queue never holds
/// more than its capacity.
pub proof fn law_fifo<T>(cap: nat, ops: Seq<QueueOp<T>>)
    ensures
        replay(cap, ops).1 == replay(cap, ops).2 + replay(cap, ops).0,
        replay(cap, ops).0.len() <= cap,
    decreases ops.len(),
{
    if ops.len() > 0 {
        law_fifo(cap, ops.drop_last());
        let (q, accepted, delivered) = replay(cap, ops.drop_last());
        match ops.last() {
            QueueOp::Send(v) => {
                if q.len() < cap {
                    assert(accepted.push(v) =~= delivered + q.push(v));
                }
            },
            QueueOp::Recv => {
                if q.len() > 0 {
                    assert(accepted =~= delivered.push(q[0]) + q.drop_first());
                }
            },
        }
    }
}

/// `head - tail`, wrapping at the word: the number of items between the two
/// counters. It cannot unwind.
fn distance(head: usize, tail: usize) -> (d: usize)
    ensures
        d == wrapping_sub(head, tail),
    no_unwind
{
    if head >= tail {
        head - tail
    } else {
        usize::MAX - (tail - head) + 1
    }
}

/// `i + 1`, wrapping at the word: the counter after `i`. It cannot unwind.
fn successor(i: usize) -> (next: usize)
    ensures
        next == wrapping_add(i, 1),
    no_unwind
{
    if i == usize::MAX {
        0
    } else {
        i + 1
    }
}

/// The ring's fields, with the operations that keep them well formed.
struct RingState<T> {
    head: Head,
    tail: Tail,
    slots: Vec<RingSlot<T>>,
    mask: usize,
    log2_capacity: Ghost<nat>,
}

impl<T> RingState<T> {
    /// The number of slots.
    pub closed spec fn capacity(&self) -> nat {
        self.slots@.len()
    }

    /// The number of queued items: the distance from `tail` to `head`.
    closed spec fn count(&self) -> nat {
        wrapping_sub(self.head@, self.tail@) as nat
    }

    /// The slot that holds queue position `k`.
    closed spec fn slot_of(&self, k: int) -> int {
        (self.tail@ + k) % (self.capacity() as int)
    }

    /// The representation invariant.
    pub closed spec fn wf(&self) -> bool {
        &&& self.capacity() == pow2(self.log2_capacity@)
        &&& self.log2_capacity@ < usize::BITS
        &&& 2 * self.capacity() <= word_modulus()
        &&& word_modulus() % (self.capacity() as int) == 0
        &&& self.mask == self.capacity() - 1
        &&& self.count() <= self.capacity()
        &&& forall|k: int|
            0 <= k < self.capacity() ==> (#[trigger] self.slots@[self.slot_of(k)]@ is Some <==> k
                < self.count())
    }

    /// The queued items, oldest first.
    pub closed spec fn view(&self) -> Seq<T> {
        Seq::new(self.count(), |k: int| self.slots@[self.slot_of(k)]@->0)
    }
}

/// Two integers that differ by a multiple of the word modulus fall in the same
/// slot of a ring whose capacity divides the word modulus.
proof fn lemma_same_slot(x: int, j: int, cap: int)
    requires
        cap > 0,
        word_modulus() % cap == 0,
    ensures
        (x + j * word_modulus()) % cap == x % cap,
{
    let q = word_modulus() / cap;
    vstd::arithmetic::div_mod::lemma_fundamental_div_mod(word_modulus(), cap);
    assert(word_modulus() == cap * q);
    assert(j * word_modulus() == cap * (j * q)) by (nonlinear_arith)
        requires
            word_modulus() == cap * q,
    ;
    lemma_mod_multiples_vanish(j * q, x, cap);
}

/// Masking with `2^k - 1` picks the slot.
proof fn lemma_mask_is_mod(x: usize, mask: usize, k: nat)
    requires
        k < usize::BITS,
        mask == pow2(k) - 1,
    ensures
        (x & mask) as int == (x as int) % (mask as int + 1),
{
    vstd::bits::lemma_usize_pow2_no_overflow(k);
    lemma_usize_low_bits_mask_is_mod(x, k);
    assert(low_bits_mask(k) == mask);
}

/// A power of two that fits in a word leaves room for the wrapping counters.
proof fn lemma_capacity_fits(k: nat)
    requires
        pow2(k) <= usize::MAX,
    ensures
        k < usize::BITS,
        2 * pow2(k) <= word_modulus(),
        word_modulus() % (pow2(k) as int) == 0,
{
    vstd::layout::unsigned_int_max_values();
    let w = usize::BITS as nat;
    assert(word_modulus() == pow2(w));
    if k > w {
        lemma_pow2_strictly_increases(w, k);
    }
    assert(k < w);
    lemma_pow2_adds(k, (w - k) as nat);
    lemma_pow2_pos(k);
    lemma_pow2_unfold((w - k) as nat);
    lemma_pow2_pos((w - k - 1) as nat);
    let q = pow2((w - k) as nat) as int;
    assert(word_modulus() == (pow2(k) as int) * q);
    assert(2 * pow2(k) <= word_modulus()) by (nonlinear_arith)
        requires
            word_modulus() == (pow2(k) as int) * q,
            q >= 2,
            pow2(k) > 0,
    ;
    vstd::arithmetic::div_mod::lemma_mod_multiples_basic(q, pow2(k) as int);
    assert(q * (pow2(k) as int) == (pow2(k) as int) * q) by (nonlinear_arith);
}

impl<T> RingState<T> {
    /// An empty ring with room for `capacity` items, rounded up to the next
    /// power of two.
    fn new(capacity: usize) -> (ring: Self)
        requires
            0 < capacity <= usize::MAX / 2,
        ensures
            ring.wf(),
            ring@ == Seq::<T>::empty(),
            is_rounded_capacity(capacity as nat, ring.capacity()),
    {
        let mut cap: usize = 1;
        let ghost mut k: nat = 0;
        proof {
            vstd::arithmetic::power2::lemma2_to64();
        }
        while cap < capacity
            invariant
                cap == pow2(k),
                1 <= cap,
                cap < 2 * capacity,
                0 < capacity <= usize::MAX / 2,
            decreases usize::MAX - cap,
        {
            proof {
                lemma_pow2_unfold(k + 1);
            }
            cap = cap * 2;
            proof {
                k = k + 1;
            }
        }
        proof {
            lemma_capacity_fits(k);
        }
        let mut slots: Vec<RingSlot<T>> = Vec::with_capacity(cap);
        let mut i: usize = 0;
        while i < cap
            invariant
                i <= cap,
                slots@.len() == i,
                forall|j: int| 0 <= j < i ==> (#[trigger] slots@[j])@ is None,
            decreases cap - i,
        {
            slots.push(RingSlot::new());
            i = i + 1;
        }
        let ring = RingState {
            head: Head { index: 0, line: [] },
            tail: Tail { index: 0, line: [] },
            slots,
            mask: cap - 1,
            log2_capacity: Ghost(k),
        };
        assert forall|p: int| 0 <= p < ring.capacity() implies !(#[trigger] ring.slots@[ring.slot_of(
            p,
        )]@ is Some) by {
            assert(0 <= ring.slot_of(p) < cap);
        }
        assert(ring@ =~= Seq::<T>::empty());
        ring
    }

    /// Enqueue `value`, or hand it back when the ring is full.
    fn send(&mut self, value: T) -> (r: Result<(), T>)
        requires
            old(self).wf(),
        ensures
            final(self).wf(),
            final(self).capacity() == old(self).capacity(),
            final(self)@ == send_step(old(self)@, old(self).capacity(), value),
            r is Ok <==> old(self)@.len() < old(self).capacity(),
            r matches Err(v) ==> v == value,
        no_unwind
    {
        let head = self.head.index;
        let tail = self.tail.index;
        if distance(head, tail) >= self.slots.len() {
            return Err(value);
        }
        let ghost cap = self.capacity() as int;
        let ghost count = self.count() as int;
        let ghost old_self = *self;
        let idx = head & self.mask;
        proof {
            lemma_mask_is_mod(head, self.mask, self.log2_capacity@);
            // head is tail + count, reduced modulo the word.
            if head >= tail {
                lemma_same_slot(tail + count, 0, cap);
            } else {
                lemma_same_slot(tail + count, -1, cap);
            }
            assert(idx == old_self.slot_of(count));
        }
        self.slots[idx].value = Some(value);
        self.head.index = successor(head);
        proof {
            assert(self.count() == count + 1);
            assert forall|k: int| 0 <= k < cap implies (#[trigger] self.slots@[self.slot_of(k)]@ is Some
                <==> k < self.count()) by {
                assert(0 <= old_self.slot_of(k) < cap);
                if k != count {
                    // distinct queue positions within one lap use distinct slots
                    assert(old_self.slot_of(k) != old_self.slot_of(count)) by {
                        lemma_distinct_slots(tail as int, k, count, cap);
                    }
                    assert(old_self.slots@[old_self.slot_of(k)]@ is Some <==> k < count);
                }
            }
            assert(self@ =~= old_self@.push(value)) by {
                assert forall|k: int| 0 <= k < count implies self@[k] == old_self@[k] by {
                    lemma_distinct_slots(tail as int, k, count, cap);
                }
            }
        }
        Ok(())
    }

    /// Dequeue the oldest item, or `None` when the ring is empty.
    fn recv(&mut self) -> (r: Option<T>)
        requires
            old(self).wf(),
        ensures
            final(self).wf(),
            final(self).capacity() == old(self).capacity(),
            final(self)@ == recv_step(old(self)@),
            r == recv_result(old(self)@),
        no_unwind
    {
        let head = self.head.index;
        let tail = self.tail.index;
        if head == tail {
            proof {
                assert(self@ =~= Seq::<T>::empty());
            }
            return None;
        }
        let ghost cap = self.capacity() as int;
        let ghost count = self.count() as int;
        let ghost old_self = *self;
        let idx = tail & self.mask;
        proof {
            lemma_mask_is_mod(tail, self.mask, self.log2_capacity@);
            assert(idx == old_self.slot_of(0));
            assert(old_self.slots@[old_self.slot_of(0)]@ is Some);
        }
        let mut value: Option<T> = None;
        core::mem::swap(&mut self.slots[idx].value, &mut value);
        self.tail.index = successor(tail);
        proof {
            assert(self.count() == count - 1);
            assert forall|k: int| 0 <= k < cap implies self.slot_of(k) == old_self.slot_of(k + 1) by {
                if tail == usize::MAX {
                    lemma_same_slot(tail + 1 + k, -1, cap);
                }
            }
            assert forall|k: int| 0 <= k < cap implies (#[trigger] self.slots@[self.slot_of(k)]@ is Some
                <==> k < self.count()) by {
                if k + 1 < cap {
                    assert(old_self.slots@[old_self.slot_of(k + 1)]@ is Some <==> k + 1 < count);
                    lemma_distinct_slots(tail as int, 0, k + 1, cap);
                } else {
                    // the position one lap ahead is the slot just vacated
                    assert(self.slot_of(k) == old_self.slot_of(0)) by {
                        lemma_same_slot(tail as int, 1, cap);
                        vstd::arithmetic::div_mod::lemma_mod_add_multiples_vanish(
                            tail as int,
                            cap,
                        );
                    }
                }
            }
            assert(self@ =~= old_self@.drop_first()) by {
                assert forall|k: int| 0 <= k < count - 1 implies self@[k] == old_self@[k + 1] by {
                    lemma_distinct_slots(tail as int, 0, k + 1, cap);
                }
            }
        }
        value
    }
}

/// The bounded queue shared by the producer and the consumer.
pub struct Inner<T> {
    state: RingState<T>,
}

impl<T> Inner<T> {
    /// The ring is always well formed.
    #[verifier::type_invariant]
    spec fn well_formed(&self) -> bool {
        self.state.wf()
    }

    /// The number of slots.
    pub closed spec fn capacity(&self) -> nat {
        self.state.capacity()
    }

    /// The queued items, oldest first.
    pub closed spec fn view(&self) -> Seq<T> {
        self.state@
    }

    /// An empty ring with room for `capacity` items, rounded up to the next
    /// power of two.
    pub fn new(capacity: usize) -> (ring: Self)
        requires
            0 < capacity <= usize::MAX / 2,
        ensures
            ring@ == Seq::<T>::empty(),
            is_rounded_capacity(capacity as nat, ring.capacity()),
    {
        Inner { state: RingState::new(capacity) }
    }

    /// Enqueue `value`, or hand it back when the ring is full.
    pub fn try_send(&mut self, value: T) -> (r: Result<(), T>)
        ensures
            final(self).capacity() == old(self).capacity(),
            final(self)@ == send_step(old(self)@, old(self).capacity(), value),
            r is Ok <==> old(self)@.len() < old(self).capacity(),
            r matches Err(v) ==> v == value,
    {
        proof {
            use_type_invariant(&*self);
        }
        self.state.send(value)
    }

    /// Dequeue the oldest item, or `None` when the ring is empty. The ring
    /// never holds more items than it has slots.
    pub fn try_recv(&mut self) -> (r: Option<T>)
        ensures
            old(self)@.len() <= old(self).capacity(),
            final(self).capacity() == old(self).capacity(),
            final(self)@ == recv_step(old(self)@),
            r == recv_result(old(self)@),
    {
        proof {
            use_type_invariant(&*self);
        }
        self.state.recv()
    }
}

/// Queue positions less than one lap apart occupy distinct slots.
proof fn lemma_distinct_slots(t: int, a: int, b: int, cap: int)
    requires
        cap > 0,
        0 <= a < cap,
        0 <= b < cap,
        a != b,
    ensures
        (t + a) % cap != (t + b) % cap,
{
    if (t + a) % cap == (t + b) % cap {
        vstd::arithmetic::div_mod::lemma_fundamental_div_mod(t + a, cap);
        vstd::arithmetic::div_mod::lemma_fundamental_div_mod(t + b, cap);
        let qa = (t + a) / cap;
        let qb = (t + b) / cap;
        assert(a - b == cap * (qa - qb)) by (nonlinear_arith)
            requires
                t + a == cap * qa + (t + a) % cap,
                t + b == cap * qb + (t + b) % cap,
                (t + a) % cap == (t + b) % cap,
        ;
        assert(false) by (nonlinear_arith)
            requires
                a - b == cap * (qa - qb),
                0 <= a < cap,
                0 <= b < cap,
                a != b,
                cap > 0,
        ;
    }
}

} // verus!
