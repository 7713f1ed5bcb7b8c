//! Trusts whose property is held and run by the local trustee.

pub mod local;

pub use local::{Local, LocalTrustee};
