//! Delegated scopes and continuations; the local path runs inline.

use vstd::prelude::*;

verus! {

/// Marks a stretch of code that runs a delegated closure.
pub struct DelegatedScopeGuard {
    _priv: (),
}

impl DelegatedScopeGuard {
    /// Enters a delegated scope.
    pub fn enter() -> (g: Self) {
        DelegatedScopeGuard { _priv: () }
    }
}

/// Runs the continuation `then` on `value`; the local path runs it at once.
pub fn enqueue_then<U, F: FnOnce(U)>(then: F, value: U)
    requires
        then.requires((value,)),
    ensures
        then.ensures((value,), ()),
{
    then(value)
}

} // verus!
