//! A local trust: the property lives with its trustee, which is the current
//! thread, so every delegated closure runs inline on it.

use vstd::prelude::*;
use crate::single_thread::latch::Latch;
use crate::util::fiber::{enqueue_then, DelegatedScopeGuard};

verus! {

/// A trust over a property `T` run by its local trustee.
pub struct Local<T> {
    inner: T,
}

impl<T> Local<T> {
    /// The property.
    pub closed spec fn value(&self) -> T {
        self.inner
    }

    /// Entrusts `value` to the local trustee.
    pub fn entrust(value: T) -> (t: Self)
        ensures
            t.value() == value,
    {
        Local { inner: value }
    }

    /// Runs `f` on the property and returns its result; the property becomes
    /// what `f` left behind.
    pub fn apply<R, F: FnOnce(&mut T) -> R>(&mut self, f: F) -> (r: R)
        requires
            forall|x: &mut T| *x == old(self).value() ==> f.requires((x,)),
        ensures
            exists|x: &mut T|
                *x == old(self).value() && #[trigger] f.ensures((x,), r) && final(self).value()
                    == *final(x),
    {
        let _guard = DelegatedScopeGuard::enter();
        f(&mut self.inner)
    }

    /// Runs `f` on the property, then the continuation `then` on its result.
    pub fn apply_then<R, F: FnOnce(&mut T) -> R, G: FnOnce(R)>(&mut self, f: F, then: G)
        requires
            forall|x: &mut T| *x == old(self).value() ==> f.requires((x,)),
            forall|r: R| then.requires((r,)),
        ensures
            exists|x: &mut T, r: R|
                *x == old(self).value() && #[trigger] f.ensures((x,), r) && then.ensures((r,), ())
                    && final(self).value() == *final(x),
    {
        let r = self.apply(f);
        enqueue_then(then, r);
    }

    /// Runs `f` on the property and the extra argument `w`.
    pub fn apply_with<V, R, F: FnOnce(&mut T, V) -> R>(&mut self, f: F, w: V) -> (r: R)
        requires
            forall|x: &mut T| *x == old(self).value() ==> f.requires((x, w)),
        ensures
            exists|x: &mut T|
                *x == old(self).value() && #[trigger] f.ensures((x, w), r) && final(self).value()
                    == *final(x),
    {
        let _guard = DelegatedScopeGuard::enter();
        f(&mut self.inner, w)
    }

    /// Runs `f` on a shared view of the property.
    pub fn with<R, F: FnOnce(&T) -> R>(&self, f: F) -> (r: R)
        requires
            f.requires((&self.value(),)),
        ensures
            f.ensures((&self.value(),), r),
    {
        let _guard = DelegatedScopeGuard::enter();
        f(&self.inner)
    }

    /// Ends the trust and returns the property.
    pub fn into_inner(self) -> (v: T)
        ensures
            v == self.value(),
    {
        self.inner
    }
}

impl<U> Local<Latch<U>> {
    /// Runs `f` on the latch's value while holding the latch, then releases it.
    pub fn lock_apply<R, F: FnOnce(&mut U) -> R>(&mut self, f: F) -> (r: R)
        requires
            forall|x: &mut U| *x == old(self).value().value() ==> f.requires((x,)),
        ensures
            exists|x: &mut U|
                *x == old(self).value().value() && #[trigger] f.ensures((x,), r)
                    && final(self).value().value() == *final(x),
    {
        let mut g = self.inner.lock();
        let r = f(g.get_mut());
        g.unlock();
        r
    }

    /// As `lock_apply`, then runs the continuation `then` on the result.
    pub fn lock_apply_then<R, F: FnOnce(&mut U) -> R, G: FnOnce(R)>(&mut self, f: F, then: G)
        requires
            forall|x: &mut U| *x == old(self).value().value() ==> f.requires((x,)),
            forall|r: R| then.requires((r,)),
        ensures
            exists|x: &mut U, r: R|
                *x == old(self).value().value() && #[trigger] f.ensures((x,), r) && then.ensures(
                    (r,),
                    (),
                ) && final(self).value().value() == *final(x),
    {
        let r = self.lock_apply(f);
        enqueue_then(then, r);
    }

    /// As `lock_apply`, passing the extra argument `w` to `f`.
    pub fn lock_apply_with<V, R, F: FnOnce(&mut U, V) -> R>(&mut self, f: F, w: V) -> (r: R)
        requires
            forall|x: &mut U| *x == old(self).value().value() ==> f.requires((x, w)),
        ensures
            exists|x: &mut U|
                *x == old(self).value().value() && #[trigger] f.ensures((x, w), r)
                    && final(self).value().value() == *final(x),
    {
        let mut g = self.inner.lock();
        let r = f(g.get_mut(), w);
        g.unlock();
        r
    }

    /// Runs `f` on a shared view of the latch's value while holding the latch.
    pub fn lock_with<R, F: FnOnce(&U) -> R>(&mut self, f: F) -> (r: R)
        requires
            f.requires((&old(self).value().value(),)),
        ensures
            f.ensures((&old(self).value().value(),), r),
            final(self).value().value() == old(self).value().value(),
    {
        let g = self.inner.lock();
        let r = f(g.get());
        g.unlock();
        r
    }
}

/// The local trustee: entrusting to it creates a local trust.
pub struct LocalTrustee {
    _private: (),
}

impl LocalTrustee {
    /// Creates the local trustee.
    pub fn new() -> (t: Self) {
        LocalTrustee { _private: () }
    }

    /// Entrusts `value` to this trustee.
    pub fn entrust<T>(&self, value: T) -> (t: Local<T>)
        ensures
            t.value() == value,
    {
        Local::entrust(value)
    }
}

} // verus!
