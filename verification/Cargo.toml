[package]
name = "aleph_bft"
version = "0.1.0"
edition = "2021"
publish = false

[dependencies]
parity-scale-codec = { version = "=3.7.5", features = ["derive"] }
rand = "=0.8.8"
itertools = "=0.13.0"
futures = "0.3"
futures-timer = "3"
log = "0.4"
parking_lot = "=0.12.5"
async-trait = "0.1"
tokio = { version = "1", features = ["rt", "macros", "time", "sync"] }
