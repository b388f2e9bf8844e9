[package]
name = "challenges"
version = "0.1.0"
edition = "2021"
publish = false

[dependencies]
borsh = "=1.8.1"
near-crypto = "=0.37.4"
serde = { version = "=1.0.229", features = ["derive"] }
sha2 = "=0.11.0"
