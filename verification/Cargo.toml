[package]
name = "agentio"
version = "0.1.0"
edition = "2021"
publish = false

[dependencies]
authbox = "0.1"
blake3 = "1"
postcard = { version = "1", features = ["use-std"] }
serde = { version = "1", features = ["derive"] }
serde_json = "1"
thiserror = "2"
tracing = "0.1"
