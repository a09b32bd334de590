[package]
name = "blockchain_consensus"
version = "0.1.0"
edition = "2021"
publish = false

[dependencies]
sha2 = "0.10"
rand = "0.8"
chrono = "0.4"
parking_lot = "0.12"
rayon = "1"
csv = "1"
serde = { version = "1", features = ["derive"] }
serde_json = "1"
clap = { version = "4", features = ["derive"] }
