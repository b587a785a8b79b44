[package]
name = "bft_test"
version = "0.1.0"
edition = "2021"
publish = false

[dependencies]
lru-cache = "0.1"
rand = "0.8"
serde = "1"
serde_derive = "1"
serde_json = "1"
rusqlite = { version = "*", features = ["bundled"] }
time = "0.1"
crossbeam = "0.8"
