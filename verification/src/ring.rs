//! Single-producer/single-consumer ring buffer with power-of-two capacity.
//! Positions are free-running 64-bit counters; the slot of a position is its
//! low bits under the capacity mask, so the counters may wrap around.

use vstd::prelude::*;

verus! {

/// `x` is a power of two.
pub open spec fn is_pow2(x: int) -> bool
    decreases x,
{
    if x <= 0 {
        false
    } else if x == 1 {
        true
    } else {
        x % 2 == 0 && is_pow2(x / 2)
    }
}

proof fn lemma_pow2_double(x: int)
    requires
        is_pow2(x),
    ensures
        is_pow2(2 * x),
    decreases x,
{
    assert((2 * x) / 2 == x);
}

proof fn lemma_pow2_mask(x: usize)
    requires
        is_pow2(x as int),
    ensures
        x & ((x - 1) as usize) == 0,
    decreases x,
{
    if x > 1 {
        lemma_pow2_mask((x / 2) as usize);
        let h = (x / 2) as usize;
        assert(x == 2 * h);
        assert(h > 0 && h & ((h - 1) as usize) == 0 && x == 2 * h ==> x & ((x - 1) as usize) == 0)
            by (bit_vector);
    } else {
        assert(x == 1);
        assert(x == 1 ==> x & ((x - 1) as usize) == 0) by (bit_vector);
    }
}

/// The smallest power of two that is at least `n` (1 for 0).
pub fn next_power_of_two(n: usize) -> (p: usize)
    requires
        n <= usize::MAX / 2 + 1,
    ensures
        is_pow2(p as int),
        n <= p,
        p == 1 || p / 2 < n,
{
    let mut p: usize = 1;
    while p < n
        invariant
            is_pow2(p as int),
            p == 1 || p / 2 < n,
            n <= usize::MAX / 2 + 1,
        decreases usize::MAX - p,
    {
        proof {
            lemma_pow2_double(p as int);
        }
        p = p * 2;
    }
    p
}

/// The capacity of a ring built for `capacity`: the next power of two, and at least 2.
pub open spec fn ring_capacity(capacity: int, p: int) -> bool {
    &&& is_pow2(p)
    &&& p >= 2
    &&& p >= capacity
    &&& (p == 2 || p / 2 < capacity)
}

/// Single-producer/single-consumer ring. The producer owns `tail`, the
/// consumer owns `head`; `tail - head` (wrapping) items are queued, the
/// oldest at slot `head & mask`.
pub struct Spsc<T> {
    tail: u64,
    head: u64,
    cap: usize,
    mask: usize,
    buf: Vec<Option<T>>,
}

impl<T> Spsc<T> {
    /// The number of queued items.
    pub closed spec fn len_spec(&self) -> int {
        self.tail.wrapping_sub(self.head) as int
    }

    /// The slot that holds the `i`-th oldest queued item.
    pub closed spec fn slot(&self, i: int) -> int {
        (self.head.wrapping_add(i as u64) & (self.mask as u64)) as int
    }

    /// The ring's capacity.
    pub closed spec fn cap_spec(&self) -> int {
        self.cap as int
    }

    /// The ring's invariant: a power-of-two capacity with its mask, one
    /// buffer cell per slot, at most a capacity of items queued, each in its slot.
    #[verifier::type_invariant]
    spec fn inv(&self) -> bool {
        &&& is_pow2(self.cap as int)
        &&& self.cap >= 2
        &&& self.mask == self.cap - 1
        &&& self.buf@.len() == self.cap
        &&& self.tail.wrapping_sub(self.head) <= self.cap
        &&& forall|i: int| 0 <= i < self.len_spec() ==> (#[trigger] self.buf@[self.slot(i)]) is Some
    }

    /// The queued items, oldest first.
    pub closed spec fn view(&self) -> Seq<T> {
        Seq::new(self.len_spec() as nat, |i: int| self.buf@[self.slot(i)]->Some_0)
    }

    /// Creates an empty ring with room for `capacity` items, rounded up to a
    /// power of two and to at least 2.
    pub fn new(capacity: usize) -> (r: Self)
        requires
            capacity <= usize::MAX / 2 + 1,
        ensures
            r@ == Seq::<T>::empty(),
            ring_capacity(capacity as int, r.cap_spec()),
    {
        let p = next_power_of_two(capacity);
        let cap = if p < 2 { 2 } else { p };
        proof {
            if p < 2 {
                assert(is_pow2(2));
            }
        }
        let mask = cap - 1;
        let mut buf: Vec<Option<T>> = Vec::with_capacity(cap);
        let mut i: usize = 0;
        while i < cap
            invariant
                i <= cap,
                buf@.len() == i,
            decreases cap - i,
        {
            buf.push(None);
            i = i + 1;
        }
        let r = Spsc { tail: 0, head: 0, cap, mask, buf };
        assert(r@ =~= Seq::<T>::empty());
        r
    }

    /// The ring's capacity: a power of two, at least 2, fixed for the ring's
    /// whole life (no operation changes it), and never below the number of
    /// queued items.
    pub fn capacity(&self) -> (c: usize)
        ensures
            c == self.cap_spec(),
            is_pow2(c as int),
            c >= 2,
            self@.len() <= c,
    {
        proof {
            use_type_invariant(self);
        }
        self.cap
    }
}

proof fn lemma_add_back(h: u64, t: u64)
    ensures
        h.wrapping_add(t.wrapping_sub(h)) == t,
{
    assert(h.wrapping_add(t.wrapping_sub(h)) == t) by (bit_vector);
}

proof fn lemma_len_push(h: u64, t: u64)
    requires
        t.wrapping_sub(h) < 0xFFFF_FFFF_FFFF_FFFFu64,
    ensures
        t.wrapping_add(1).wrapping_sub(h) == t.wrapping_sub(h) + 1,
{
    assert(t.wrapping_sub(h) < 0xFFFF_FFFF_FFFF_FFFFu64 ==> t.wrapping_add(1).wrapping_sub(h)
        == t.wrapping_sub(h) + 1) by (bit_vector);
}

proof fn lemma_len_pop(h: u64, t: u64)
    requires
        t.wrapping_sub(h) > 0,
    ensures
        t.wrapping_sub(h.wrapping_add(1)) == t.wrapping_sub(h) - 1,
{
    assert(t.wrapping_sub(h) > 0 ==> t.wrapping_sub(h.wrapping_add(1)) == t.wrapping_sub(h) - 1)
        by (bit_vector);
}

proof fn lemma_shift(h: u64, i: u64)
    requires
        i < 0xFFFF_FFFF_FFFF_FFFFu64,
    ensures
        h.wrapping_add(1).wrapping_add(i) == h.wrapping_add((i + 1) as u64),
{
    assert(i < 0xFFFF_FFFF_FFFF_FFFFu64 ==> h.wrapping_add(1).wrapping_add(i) == h.wrapping_add(
        (i + 1) as u64,
    )) by (bit_vector);
}

proof fn lemma_distinct(h: u64, i: u64, l: u64, mask: u64)
    requires
        mask & ((mask + 1) as u64) == 0,
        i < l,
        l <= mask,
    ensures
        h.wrapping_add(l) & mask != h.wrapping_add(i) & mask,
{
    assert(mask & ((mask + 1) as u64) == 0 && i < l && l <= mask ==> h.wrapping_add(l) & mask
        != h.wrapping_add(i) & mask) by (bit_vector);
}

proof fn lemma_masked_below(x: u64, mask: u64)
    ensures
        x & mask <= mask,
{
    assert(x & mask <= mask) by (bit_vector);
}

proof fn lemma_mask_u64(cap: usize)
    requires
        is_pow2(cap as int),
        cap >= 2,
    ensures
        ((cap - 1) as u64) & (cap as u64) == 0,
{
    lemma_pow2_mask(cap);
    let m = (cap - 1) as usize;
    assert(cap >= 2 && cap & m == 0 && m == cap - 1 ==> ((cap - 1) as u64) & (cap as u64) == 0)
        by (bit_vector);
}

impl<T> Spsc<T> {
    /// Appends `value` if fewer than a capacity of items are queued; otherwise
    /// hands `value` back.
    pub fn try_push(&mut self, value: T) -> (r: Result<(), T>)
        ensures
            final(self).cap_spec() == old(self).cap_spec(),
            final(self)@.len() <= final(self).cap_spec(),
            old(self)@.len() < old(self).cap_spec() ==> r is Ok && final(self)@ == old(self)@.push(
                value,
            ),
            old(self)@.len() >= old(self).cap_spec() ==> r == Err::<(), T>(value) && final(self)@
                == old(self)@,
    {
        proof {
            use_type_invariant(&*self);
        }
        let head = self.head;
        let tail = self.tail;
        if tail.wrapping_sub(head) >= self.cap as u64 {
            return Err(value);
        }
        let idx = (tail & (self.mask as u64)) as usize;
        let ghost old_self = *self;
        let ghost len = tail.wrapping_sub(head);
        proof {
            lemma_masked_below(tail, self.mask as u64);
            lemma_mask_u64(self.cap);
            lemma_add_back(head, tail);
            lemma_len_push(head, tail);
            assert(idx as int == (tail & (self.mask as u64)) as int);
            assert(old_self.slot(len as int) == idx);
            assert forall|i: int| 0 <= i < len implies old_self.slot(i) != idx by {
                lemma_distinct(head, i as u64, len, self.mask as u64);
            }
        }
        proof {
            assert forall|x: u64| #[trigger] (x & (self.mask as u64)) <= self.mask as u64 by {
                lemma_masked_below(x, self.mask as u64);
            }
            assert forall|i: int| 0 <= i < len implies #[trigger] (head.wrapping_add(i as u64) & (
            self.mask as u64)) == old_self.slot(i) && old_self.slot(i) != idx
                && old_self.buf@[old_self.slot(i)] is Some by {
                lemma_distinct(head, i as u64, len, self.mask as u64);
            }
        }
        self.buf[idx] = Some(value);
        self.tail = tail.wrapping_add(1);
        proof {
            assert(self.len_spec() == len + 1);
            assert(self.buf@[idx as int] is Some);
            assert forall|i: int| 0 <= i < self.len_spec() implies (#[trigger] self.buf@[self.slot(
                i,
            )]) is Some by {
                assert(self.slot(i) == old_self.slot(i));
                lemma_masked_below(head.wrapping_add(i as u64), self.mask as u64);
                if i < len {
                    assert(old_self.buf@[old_self.slot(i)] is Some);
                }
            }
            assert forall|i: int| 0 <= i < len implies self.buf@[self.slot(i)] == old_self.buf@[old_self.slot(i)] by {
                lemma_masked_below(head.wrapping_add(i as u64), self.mask as u64);
            }
            assert(self@ =~= old_self@.push(value));
        }
        Ok(())
    }

    /// Removes and returns the oldest item; `None` when the ring is empty.
    pub fn try_pop(&mut self) -> (r: Option<T>)
        ensures
            final(self).cap_spec() == old(self).cap_spec(),
            final(self)@.len() <= final(self).cap_spec(),
            old(self)@.len() == 0 ==> r is None && final(self)@ == old(self)@,
            old(self)@.len() > 0 ==> r == Some(old(self)@[0]) && final(self)@
                == old(self)@.drop_first(),
    {
        proof {
            use_type_invariant(&*self);
        }
        let tail = self.tail;
        let head = self.head;
        if head == tail {
            return None;
        }
        let idx = (head & (self.mask as u64)) as usize;
        let ghost old_self = *self;
        let ghost len = tail.wrapping_sub(head);
        proof {
            assert(head == tail ==> tail.wrapping_sub(head) == 0) by (bit_vector);
            assert(head != tail ==> tail.wrapping_sub(head) != 0) by (bit_vector);
            lemma_masked_below(head, self.mask as u64);
            lemma_mask_u64(self.cap);
            lemma_len_pop(head, tail);
            assert(head.wrapping_add(0) == head) by (bit_vector);
            assert(old_self.slot(0) == idx);
            assert(old_self.buf@[old_self.slot(0)] is Some);
        }
        proof {
            assert forall|x: u64| #[trigger] (x & (self.mask as u64)) <= self.mask as u64 by {
                lemma_masked_below(x, self.mask as u64);
            }
            assert forall|i: int| 0 <= i < len - 1 implies #[trigger] (head.wrapping_add(1).wrapping_add(
                i as u64,
            ) & (self.mask as u64)) == old_self.slot(i + 1) && old_self.slot(i + 1) != idx by {
                lemma_shift(head, i as u64);
                lemma_distinct(head, 0, (i + 1) as u64, self.mask as u64);
                assert(head.wrapping_add(0) == head) by (bit_vector);
            }
        }
        self.head = head.wrapping_add(1);
        let mut taken: Option<T> = None;
        std::mem::swap(&mut self.buf[idx], &mut taken);
        proof {
            assert(self.len_spec() == len - 1);
            assert forall|i: int| 0 <= i < self.len_spec() implies self.slot(i) == old_self.slot(i + 1)
                && self.slot(i) != idx by {
                lemma_shift(head, i as u64);
                lemma_distinct(head, 0, (i + 1) as u64, self.mask as u64);
                assert(head.wrapping_add(0) == head) by (bit_vector);
            }
            assert forall|i: int| 0 <= i < self.len_spec() implies self.buf@[self.slot(i)]
                == old_self.buf@[old_self.slot(i + 1)] by {
                lemma_shift(head, i as u64);
                lemma_masked_below(head.wrapping_add((i + 1) as u64), self.mask as u64);
            }
            assert forall|i: int| 0 <= i < self.len_spec() implies (#[trigger] self.buf@[self.slot(
                i,
            )]) is Some by {
                assert(old_self.buf@[old_self.slot(i + 1)] is Some);
            }
            assert(self@ =~= old_self@.drop_first());
        }
        taken
    }

    /// Appends `value`. The ring is owned by its caller, so no consumer can
    /// make room while this call waits: the ring must have room already.
    pub fn push_backoff(&mut self, value: T)
        requires
            old(self)@.len() < old(self).cap_spec(),
        ensures
            final(self).cap_spec() == old(self).cap_spec(),
            final(self)@.len() <= final(self).cap_spec(),
            final(self)@ == old(self)@.push(value),
    {
        let r = self.try_push(value);
        assert(r is Ok);
    }

    /// Removes and returns the oldest item. The ring is owned by its caller,
    /// so no producer can add one while this call waits: the ring must hold
    /// an item already.
    pub fn pop_backoff(&mut self) -> (v: T)
        requires
            old(self)@.len() > 0,
        ensures
            final(self).cap_spec() == old(self).cap_spec(),
            final(self)@.len() <= final(self).cap_spec(),
            v == old(self)@[0],
            final(self)@ == old(self)@.drop_first(),
    {
        self.try_pop().unwrap()
    }
}

/// Items leave a ring in the order they entered: on a ring holding items,
/// a push then a pop gives what a pop then a push gives (the oldest item
/// leaves, the new one waits at the back); on an empty ring the pop returns
/// the item just pushed.
pub proof fn lemma_fifo<T>(q: Seq<T>, x: T)
    ensures
        q.push(x)[0] == (if q.len() > 0 { q[0] } else { x }),
        q.len() > 0 ==> q.push(x).drop_first() == q.drop_first().push(x),
        q.len() == 0 ==> q.push(x).drop_first() == Seq::<T>::empty(),
{
    if q.len() > 0 {
        assert(q.push(x).drop_first() =~= q.drop_first().push(x));
    } else {
        assert(q.push(x).drop_first() =~= Seq::<T>::empty());
    }
}

/// The items of `q` after pushing the items of `s` one by one, front to back.
pub open spec fn push_all<T>(q: Seq<T>, s: Seq<T>) -> Seq<T>
    decreases s.len(),
{
    if s.len() == 0 {
        q
    } else {
        push_all(q, s.drop_last()).push(s.last())
    }
}

/// The items of `q` after `k` pops.
pub open spec fn pop_n<T>(q: Seq<T>, k: nat) -> Seq<T>
    decreases k,
{
    if k == 0 || q.len() == 0 {
        q
    } else {
        pop_n(q.drop_first(), (k - 1) as nat)
    }
}

/// Pushing items one by one appends them in order.
pub proof fn lemma_push_all<T>(q: Seq<T>, s: Seq<T>)
    ensures
        push_all(q, s) == q + s,
    decreases s.len(),
{
    if s.len() > 0 {
        lemma_push_all(q, s.drop_last());
        assert(q + s.drop_last() + seq![s.last()] =~= q + s);
        assert((q + s.drop_last()).push(s.last()) =~= q + s.drop_last() + seq![s.last()]);
    } else {
        assert(q + s =~= q);
    }
}

/// After `k` pops, the front item is the `k`-th oldest and the rest follow.
pub proof fn lemma_pop_n<T>(q: Seq<T>, k: nat)
    requires
        k <= q.len(),
    ensures
        pop_n(q, k) == q.subrange(k as int, q.len() as int),
    decreases k,
{
    if k == 0 {
        assert(q.subrange(0, q.len() as int) =~= q);
    } else {
        lemma_pop_n(q.drop_first(), (k - 1) as nat);
        assert(q.drop_first().subrange(k - 1, q.drop_first().len() as int) =~= q.subrange(k as int, q.len() as int));
    }
}

/// Items leave an empty ring in the order they went in: after pushing
/// `x1, ..., xk` (k at most the capacity), pop number `i` returns `xi`, each
/// exactly once, and after `k` pops the ring is empty again.
pub proof fn lemma_fifo_all<T>(s: Seq<T>, i: nat)
    requires
        i < s.len(),
    ensures
        push_all(Seq::<T>::empty(), s) == s,
        pop_n(push_all(Seq::<T>::empty(), s), i)[0] == s[i as int],
        pop_n(push_all(Seq::<T>::empty(), s), s.len()) == Seq::<T>::empty(),
{
    lemma_push_all(Seq::<T>::empty(), s);
    assert(Seq::<T>::empty() + s =~= s);
    lemma_pop_n(s, i);
    lemma_pop_n(s, s.len());
    assert(s.subrange(s.len() as int, s.len() as int) =~= Seq::<T>::empty());
}

/// What a thread waiting on a full or empty ring does next.
#[derive(Clone, Copy, Debug, PartialEq, Eq, Structural)]
pub enum BackoffAction {
    /// Spin once.
    Spin,
    /// Yield to the scheduler.
    Yield,
    /// Park for `PARK_MICROS` microseconds.
    Park,
}

/// How long a parked waiter sleeps, in microseconds.
pub const PARK_MICROS: u64 = 50;

/// One step of the ring's backoff after `spins` steps: 40 spins, then 40
/// yields, then a short park that starts the count again. Returns the action
/// and the new count.
pub fn backoff_step(spins: u32) -> (r: (BackoffAction, u32))
    ensures
        spins < 40 ==> r == (BackoffAction::Spin, (spins + 1) as u32),
        40 <= spins < 80 ==> r == (BackoffAction::Yield, (spins + 1) as u32),
        spins >= 80 ==> r == (BackoffAction::Park, 0u32),
{
    if spins < 40 {
        (BackoffAction::Spin, spins + 1)
    } else if spins < 80 {
        (BackoffAction::Yield, spins + 1)
    } else {
        (BackoffAction::Park, 0)
    }
}

} // verus!
