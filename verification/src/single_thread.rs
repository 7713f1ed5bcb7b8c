//! Single-threaded primitives that use no atomics.

pub mod latch;

pub use latch::{Latch, LatchGuard};
