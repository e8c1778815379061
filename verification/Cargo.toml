[package]
name = "pairings"
version = "0.1.0"
edition = "2021"
publish = false

[dependencies]
uuid = "1"
ed25519-dalek = "1"
futures = "0.3"
log = "0.4"
