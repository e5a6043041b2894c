[package]
name = "k_download"
version = "0.1.0"
edition = "2021"
publish = false

[dependencies]
epub-builder = "*"
html-escape = "*"
serde = { version = "*", features = ["derive"] }
reqwest = { version = "*", default-features = false, features = ["json"] }
tokio = { version = "*", features = ["rt-multi-thread", "macros", "sync", "time", "fs", "io-util"] }
futures-util = "*"
anyhow = "*"
crossterm = "*"
ratatui = "*"
dirs = "*"
toml = "*"
chrono = { version = "*", default-features = false, features = ["clock", "std"] }
