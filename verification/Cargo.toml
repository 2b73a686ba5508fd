[package]
name = "starlang"
version = "0.1.0"
edition = "2021"
publish = false

[dependencies]
async-trait = "=0.1.92"
dashmap = "=6.2.1"
hostname = "=0.4.2"
once_cell = "=1.21.4"
parking_lot = "=0.12.5"
postcard = { version = "=1.1.3", features = ["alloc"] }
serde = { version = "=1.0.229", features = ["derive"] }
serde_json = "1"
thiserror = "=2.0.21"
tokio = { version = "=1.54.1", features = ["rt", "rt-multi-thread", "sync", "time", "macros", "process", "io-util"] }
tracing = "=0.1.44"
