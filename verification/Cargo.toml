[package]
name = "realtime"
version = "0.1.0"
edition = "2021"
publish = false

[dependencies]
alloy = { version = "1", default-features = false, features = ["std", "consensus", "contract", "eips", "kzg", "network", "providers", "provider-debug-api", "rpc-types", "rpc-types-eth", "rpc-types-trace", "sol-types"] }
anyhow = "1"
serde_json = "1"
tokio = { version = "1", features = ["sync"] }
tracing = "0.1"
