[package]
name = "lucio-core"
version = "0.1.0"
edition = "2021"
publish = false

[dependencies]
camino = "1"
serde_json = { version = "1", features = ["preserve_order"] }
walkdir = "2"
indicatif = "*"
dirs = "*"
anyhow = "1"
thiserror = "*"
tracing = "0.1"
tracing-subscriber = { version = "0.3", features = ["env-filter"] }
clap = { version = "4", features = ["derive"] }
clap_complete = "4"
ratatui = "*"
