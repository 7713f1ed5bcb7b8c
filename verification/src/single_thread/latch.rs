//! `Latch<T>`: single-threaded mutual exclusion without atomics or heap
//! allocation. A latch is held exactly while a guard borrowed from it lives:
//! the guard holds the latch's only exclusive borrow, so nothing else can
//! reach the latch until the guard is gone, and dropping the guard frees it.

use vstd::prelude::*;

verus! {

/// A value that at most one guard at a time gives access to.
pub struct Latch<T> {
    inner: T,
}

/// Exclusive access to a latch's value; the latch is held while it lives.
pub struct LatchGuard<'a, T> {
    pub latch: &'a mut Latch<T>,
}

impl<T> Latch<T> {
    /// The value the latch guards.
    pub closed spec fn value(&self) -> T {
        self.inner
    }

    /// Creates a free latch around `value`.
    pub fn new(value: T) -> (l: Self)
        ensures
            l.value() == value,
    {
        Latch { inner: value }
    }

    /// Takes the latch. Whoever can call this holds the latch's exclusive
    /// borrow, so no other guard lives and the latch is free: the guard is
    /// always given. The latch afterwards holds what the guard left.
    pub fn try_lock(&mut self) -> (g: Option<LatchGuard<'_, T>>)
        ensures
            g is Some,
            g->0.latch.value() == old(self).value(),
            *final(self) == *final(g->0.latch),
    {
        Some(LatchGuard { latch: self })
    }

    /// Takes the latch; as `try_lock`, which always succeeds here.
    pub fn lock(&mut self) -> (g: LatchGuard<'_, T>)
        ensures
            g.latch.value() == old(self).value(),
            *final(self) == *final(g.latch),
    {
        self.try_lock().unwrap()
    }

    /// Takes the latch, runs `f` on its value, and releases it.
    pub fn with_lock<R, F: FnOnce(&mut T) -> R>(&mut self, f: F) -> (r: R)
        requires
            forall|x: &mut T| *x == old(self).value() ==> f.requires((x,)),
        ensures
            exists|x: &mut T|
                *x == old(self).value() && #[trigger] f.ensures((x,), r) && final(self).value()
                    == *final(x),
    {
        let mut g = self.lock();
        let r = f(g.get_mut());
        g.unlock();
        r
    }

    /// Direct access to the value through exclusive ownership of the latch.
    pub fn get_mut(&mut self) -> (r: &mut T)
        ensures
            *r == old(self).value(),
            final(self).value() == *final(r),
    {
        &mut self.inner
    }

    /// Consumes the latch and returns its value.
    pub fn into_inner(self) -> (v: T)
        ensures
            v == self.value(),
    {
        self.inner
    }

    /// Whether a guard holds the latch. A guard holds the latch's exclusive
    /// borrow, so while one lives this cannot be called: the answer is always
    /// that the latch is free.
    pub fn is_locked(&self) -> (b: bool)
        ensures
            !b,
    {
        false
    }
}

impl<'a, T> LatchGuard<'a, T> {
    /// Shared access to the guarded value.
    pub fn get(&self) -> (r: &T)
        ensures
            *r == old(self.latch).value(),
    {
        &self.latch.inner
    }

    /// Exclusive access to the guarded value.
    pub fn get_mut(&mut self) -> (r: &mut T)
        ensures
            *r == old(self).latch.value(),
            final(self).latch.value() == *final(r),
            *final(final(self).latch) == *final(old(self).latch),
    {
        &mut self.latch.inner
    }

    /// Releases the latch, keeping the value it holds now; dropping the guard
    /// does the same.
    pub fn unlock(self)
        ensures
            final(self.latch).value() == old(self.latch).value(),
    {
    }
}

/// A latch keeps the last value written under it. A cycle takes a guard
/// (`lock`: the guard starts with the latch's value), writes through it
/// (`get_mut`), and releases it (`unlock` or drop: the latch holds what the
/// guard left). If `states` are the latch's values after `new(v)` and after
/// each cycle, and cycle `i` left `writes[i]` in its guard, the latch ends with
/// the last write, or `v` when there was none, and `into_inner` returns it.
pub proof fn lemma_latch_keeps_last_write<T>(
    states: Seq<Latch<T>>,
    guard_start: Seq<T>,
    writes: Seq<T>,
    v: T,
)
    requires
        states.len() == writes.len() + 1,
        guard_start.len() == writes.len(),
        states[0].value() == v,
        forall|i: int| 0 <= i < writes.len() ==> #[trigger] guard_start[i] == states[i].value(),
        forall|i: int| 0 <= i < writes.len() ==> (#[trigger] states[i + 1]).value() == writes[i],
    ensures
        states.last().value() == (if writes.len() == 0 { v } else { writes.last() }),
        forall|i: int| 0 < i < writes.len() ==> #[trigger] guard_start[i] == writes[i - 1],
{
    if writes.len() > 0 {
        let i = writes.len() - 1;
        assert(states[i + 1] == states.last());
    }
    assert forall|i: int| 0 < i < writes.len() implies #[trigger] guard_start[i] == writes[i - 1] by {
        assert(states[(i - 1) + 1] == states[i]);
    }
}

} // verus!
