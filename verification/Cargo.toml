[package]
name = "ssht"
version = "0.1.0"
edition = "2021"
publish = false

[dependencies]
anyhow = "1"
crossterm = "0.27"
dirs = "5"
ratatui = "0.26"
serde = { version = "1", features = ["derive"] }
tokio = { version = "1", features = ["process", "time", "sync", "macros", "rt-multi-thread"] }
toml = "0.8"
