//! The remote runtime's shared data: slot layout, record encoding and the
//! request/response handshake.

pub mod common;
pub mod slots;
pub mod channel;
pub mod serialization;
pub mod schedule;
