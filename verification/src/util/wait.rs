//! A wait budget for spin-wait loops: a bounded number of spins, then a
//! bounded number of yields, then spinning again without ever parking.

use vstd::prelude::*;

verus! {

/// What a waiting thread does on one step of its budget.
#[derive(Clone, Copy, Debug, PartialEq, Eq, Structural)]
pub enum WaitAction {
    /// Spin once (a CPU relax hint).
    Spin,
    /// Yield the thread to the scheduler.
    Yield,
}

/// Counts of spins and yields spent so far, with their caps.
#[derive(Clone, Copy)]
pub struct WaitBudget {
    spins: u32,
    yields: u32,
    spin_cap: u32,
    yield_cap: u32,
}

impl WaitBudget {
    /// Spins spent so far.
    pub closed spec fn spins_spec(&self) -> u32 {
        self.spins
    }

    /// Yields spent so far.
    pub closed spec fn yields_spec(&self) -> u32 {
        self.yields
    }

    /// Spins allowed before yielding.
    pub closed spec fn spin_cap_spec(&self) -> u32 {
        self.spin_cap
    }

    /// Yields allowed before spinning for good.
    pub closed spec fn yield_cap_spec(&self) -> u32 {
        self.yield_cap
    }

    /// Counters never pass their caps.
    #[verifier::type_invariant]
    spec fn within_caps(&self) -> bool {
        self.spins <= self.spin_cap && self.yields <= self.yield_cap
    }

    /// A budget for high contention: 128 spins, then 8 yields.
    pub fn hot() -> (b: Self)
        ensures
            b.spins_spec() == 0,
            b.yields_spec() == 0,
            b.spin_cap_spec() == 128,
            b.yield_cap_spec() == 8,
    {
        WaitBudget { spins: 0, yields: 0, spin_cap: 128, yield_cap: 8 }
    }

    /// Clears the spin and yield counters; the caps stay.
    pub fn reset(&mut self)
        ensures
            final(self).spins_spec() == 0,
            final(self).yields_spec() == 0,
            final(self).spin_cap_spec() == old(self).spin_cap_spec(),
            final(self).yield_cap_spec() == old(self).yield_cap_spec(),
    {
        proof {
            use_type_invariant(&*self);
        }
        self.spins = 0;
        self.yields = 0;
    }

    /// Spends one step of the budget and says what to do: spin while spins
    /// remain, then yield while yields remain, then spin without counting.
    /// The counters never pass their caps.
    pub fn step(&mut self) -> (a: WaitAction)
        ensures
            old(self).spins_spec() <= old(self).spin_cap_spec(),
            old(self).yields_spec() <= old(self).yield_cap_spec(),
            final(self).spins_spec() <= final(self).spin_cap_spec(),
            final(self).yields_spec() <= final(self).yield_cap_spec(),
            final(self).spin_cap_spec() == old(self).spin_cap_spec(),
            final(self).yield_cap_spec() == old(self).yield_cap_spec(),
            (final(self).spins_spec(), final(self).yields_spec(), a) == step_result(
                old(self).spins_spec(),
                old(self).yields_spec(),
                old(self).spin_cap_spec(),
                old(self).yield_cap_spec(),
            ),
    {
        proof {
            use_type_invariant(&*self);
        }
        if self.spins < self.spin_cap {
            self.spins = self.spins + 1;
            WaitAction::Spin
        } else if self.yields < self.yield_cap {
            self.yields = self.yields + 1;
            WaitAction::Yield
        } else {
            WaitAction::Spin
        }
    }
}

/// One step of a budget: the new spin and yield counts and the action.
pub open spec fn step_result(spins: u32, yields: u32, spin_cap: u32, yield_cap: u32) -> (u32, u32, WaitAction) {
    if spins < spin_cap {
        ((spins + 1) as u32, yields, WaitAction::Spin)
    } else if yields < yield_cap {
        (spins, (yields + 1) as u32, WaitAction::Yield)
    } else {
        (spins, yields, WaitAction::Spin)
    }
}

impl Default for WaitBudget {
    /// A milder budget: 64 spins, then 4 yields.
    fn default() -> (b: Self)
        ensures
            b.spins_spec() == 0,
            b.yields_spec() == 0,
            b.spin_cap_spec() == 64,
            b.yield_cap_spec() == 4,
    {
        WaitBudget { spins: 0, yields: 0, spin_cap: 64, yield_cap: 4 }
    }
}

/// The action that step number `k` (from 0) of a reset budget takes.
pub open spec fn action_at(k: nat, spin_cap: u32, yield_cap: u32) -> WaitAction {
    if k < spin_cap {
        WaitAction::Spin
    } else if k < spin_cap + yield_cap {
        WaitAction::Yield
    } else {
        WaitAction::Spin
    }
}

/// The spin and yield counts of a reset budget after `k` steps.
pub open spec fn counts_after(k: nat, spin_cap: u32, yield_cap: u32) -> (u32, u32) {
    if k < spin_cap {
        (k as u32, 0)
    } else if k < spin_cap + yield_cap {
        (spin_cap, (k - spin_cap) as u32)
    } else {
        (spin_cap, yield_cap)
    }
}

/// A reset budget spins `spin_cap` times, then yields `yield_cap` times, then
/// spins for good: step `k` takes `action_at(k)` and leads to the counts after
/// `k + 1` steps.
pub proof fn lemma_budget_schedule(k: nat, spin_cap: u32, yield_cap: u32)
    ensures
        counts_after(0, spin_cap, yield_cap) == (0u32, 0u32),
        ({
            let (s, y) = counts_after(k, spin_cap, yield_cap);
            let (s2, y2, a) = step_result(s, y, spin_cap, yield_cap);
            &&& (s2, y2) == counts_after(k + 1, spin_cap, yield_cap)
            &&& a == action_at(k, spin_cap, yield_cap)
        }),
{
}

} // verus!
