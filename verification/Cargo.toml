[package]
name = "biscuit_poc"
version = "0.1.0"
edition = "2021"
publish = false

[dependencies]
curve25519-dalek = { version = "1", features = ["serde"] }
serde = { version = "1", features = ["derive"] }
serde_cbor = "0.9"
