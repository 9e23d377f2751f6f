[package]
name = "mcpg_plugin_backend_nats"
version = "0.1.0"
edition = "2021"
publish = false

[dependencies]
anyhow = "=1.0.104"
async-nats = { version = "=0.51.0", default-features = false, features = ["nkeys", "nuid", "ring"] }
async-trait = "=0.1.92"
blake3 = "=1.8.7"
bytes = "=1.12.1"
futures = "=0.3.34"
metrics = "=0.24.6"
serde = { version = "=1.0.229", features = ["derive"] }
serde_json = "=1.0.154"
tokio = { version = "=1.54.1", features = ["macros", "rt-multi-thread", "sync", "time"] }
tokio-util = "=0.7.20"
tracing = "=0.1.44"
