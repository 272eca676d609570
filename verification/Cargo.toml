[package]
name = "test_123"
version = "0.1.0"
edition = "2021"
publish = false

[dependencies]
anchor-lang = "=1.2.1"
light-sdk = { version = "=0.25.0", features = ["anchor", "keccak"] }
