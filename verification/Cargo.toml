[package]
name = "event_parser"
version = "0.1.0"
edition = "2021"
publish = false

[dependencies]
alloy-dyn-abi = { version = "=1.7.3", features = ["eip712"] }
alloy-json-abi = { version = "=1.7.3", features = ["serde_json"] }
alloy-primitives = "=1.7.3"
base64 = "=0.22.1"
ethers-core = { version = "=2.0.14", default-features = false }
serde = { version = "=1.0.229", features = ["derive"] }
serde_json = { version = "=1.0.154", features = ["preserve_order"] }
thiserror = "=1.0.69"
