[package]
name = "anvil_core"
version = "0.1.0"
edition = "2021"
publish = false

[dependencies]
serde = { version = "*", features = ["derive"] }
serde_json = "*"
alloy-primitives = "*"
alloy-eips = "*"
alloy-rpc-types = "*"
alloy-serde = "*"
