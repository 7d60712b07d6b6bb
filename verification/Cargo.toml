[package]
name = "wsvc"
version = "0.1.0"
edition = "2021"
publish = false

[dependencies]
blake3 = "1"
miniz_oxide = "0.7"
nanoid = "0.4"
chrono = { version = "0.4", features = ["serde"] }
serde = { version = "1", features = ["derive"] }
serde_json = "1"
thiserror = "1"
tokio = { version = "1", features = ["full"] }
tokio-tungstenite = "0.20"
axum = { version = "0.6", features = ["ws"] }
toml = "0.8"
clap = { version = "4", features = ["derive"] }
colored = "2"
dirs = "5"
futures = "0.3"
indicatif = "0.17"
tracing = "0.1"
async-recursion = "1"
