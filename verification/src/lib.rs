//! Trust-based delegation primitives: the slot layout and handshake that a
//! client and its trustee share, a single-producer/single-consumer ring,
//! single-threaded latches, local trusts and the trustee's scheduling rules.

pub mod ring;
pub mod runtime;
pub mod single_thread;
pub mod trust;
pub mod util;
