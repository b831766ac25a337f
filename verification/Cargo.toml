[package]
name = "nearcard_sbt"
version = "0.1.0"
edition = "2021"
publish = false

[dependencies]
near-account-id = "=2.6.0"
near-sdk = { version = "=5.29.1", features = ["non-contract-usage"] }
