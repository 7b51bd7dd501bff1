[package]
name = "lazyrss"
version = "0.1.0"
edition = "2021"
publish = false

[dependencies]
anyhow = "*"
chrono = "*"
clap = { version = "*", features = ["derive"] }
crossterm = { version = "*", features = ["event-stream"] }
dirs = "*"
feed-rs = "*"
futures = "*"
html2text = "*"
open = "*"
ratatui = "*"
reqwest = { version = "*", default-features = false, features = ["rustls-tls", "gzip"] }
rusqlite = { version = "*", features = ["bundled"] }
serde = { version = "*", features = ["derive"] }
serde_yaml = "*"
tokio = { version = "*", features = ["rt-multi-thread", "macros", "sync", "time"] }
