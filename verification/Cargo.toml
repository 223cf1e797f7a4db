[package]
name = "syrup"
version = "0.1.0"
edition = "2021"
publish = false

[dependencies]
fluent-uri = "=0.2.0"
thiserror = "=2.0.21"
ed25519-dalek = { version = "=2.2.0", features = ["rand_core"] }
rand = "=0.8.8"
