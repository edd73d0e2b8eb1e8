[package]
name = "atlas"
version = "0.1.0"
edition = "2021"
publish = false

[dependencies]
rs_poker = { version = "=4.1.0", default-features = false }
rand = "=0.9.5"
ulid = "=1.2.1"
bytes = "=1.12.1"
serde = { version = "=1.0.229", features = ["derive"] }
serde-value = "=0.7.0"
tokio = { version = "=1.54.1", features = ["rt-multi-thread", "macros", "sync", "io-std", "io-util", "net", "time"] }
tokio-util = { version = "=0.7.20", features = ["codec"] }
futures = "=0.3.34"
anyhow = "=1.0.104"
dashmap = "=6.2.1"
parking_lot = "=0.13.0"
slab = "=0.4.12"
syn = { version = "=2.0.119", features = ["full"] }
tracing = "=0.1.44"
rust_decimal = { version = "1", features = ["serde"] }
