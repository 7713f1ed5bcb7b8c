//! Shared utilities: wait budgets, thread-pinning settings and delegated
//! scopes.

pub mod affinity;
pub mod fiber;
pub mod wait;

pub use affinity::PinConfig;
pub use wait::WaitBudget;
