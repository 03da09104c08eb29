[package]
name = "intake"
version = "0.1.0"
edition = "2021"
publish = false

[dependencies]
anyhow = "=1.0.104"
axum = "=0.8.9"
chrono = "=0.4.45"
libc = "=0.2.191"
regex = "=1.13.1"
rig-agent = "=0.41.0"
rig-core = "=0.41.0"
rusqlite = { version = "=0.41.1", features = ["bundled"] }
schemars = "=1.2.3"
serde = { version = "=1.0.229", features = ["derive"] }
serde_json = "=1.0.154"
serde-saphyr = "=2.0.0"
thiserror = "=2.0.21"
tokio = { version = "=1.54.1", features = ["full"] }
tokio-util = "=0.7.20"
tracing = "=0.1.44"
tracing-subscriber = "=0.3.23"
tree-sitter = "=0.27.1"
tree-sitter-bash = "=0.25.1"
url = "=2.5.8"
