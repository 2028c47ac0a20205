[package]
name = "ghost_lib"
version = "0.1.0"
edition = "2021"
publish = false

[dependencies]
anyhow = "*"
clap = { version = "*", features = ["derive"] }
crossterm = "*"
futures = "*"
indicatif = "*"
ollama-rs = { version = "*", features = ["stream"] }
qdrant-client = "*"
ratatui = "*"
regex = "*"
reqwest = { version = "*", default-features = false }
serde_json = "*"
text-splitter = { version = "*", default-features = false, features = ["markdown"] }
tokio = { version = "*", features = ["full"] }
tokio-stream = "*"
uuid = { version = "*", features = ["v4"] }
