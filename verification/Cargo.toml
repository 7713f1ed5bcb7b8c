[package]
name = "trust_tee"
version = "0.1.0"
edition = "2021"
publish = false

[dependencies]
bincode = "1"
crossbeam-queue = "0.3"
libc = "0.2"
may = "0.3"
serde = { version = "1", features = ["derive"] }
smallvec = "1"
