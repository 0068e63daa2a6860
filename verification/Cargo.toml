[package]
name = "stupid-kv"
version = "0.0.10"
edition = "2021"
publish = false

[dependencies]
arc-swap = "1"
axum = "0.8"
bincode = { version = "2", features = ["serde"] }
bytes = { version = "1", features = ["serde"] }
crossbeam-deque = "0.8"
crossbeam-queue = "0.3"
crossbeam-skiplist = "0.1"
lz4 = "1"
papaya = "0.2"
parking_lot = "0.12"
pyo3 = { version = "0.21", features = ["extension-module", "abi3-py38"] }
serde = { version = "1", features = ["derive"] }
smallvec = "1"
thiserror = "2"
tokio = { version = "1", features = ["full"] }
tracing = "0.1"
web-time = "1"
