[package]
name = "gho"
version = "0.2.0"
edition = "2021"
publish = false

[dependencies]
flate2 = "1"
similar = "2"
anyhow = "1"
thiserror = "2"
clap = { version = "4", features = ["derive"] }
crossterm = "0.28"
ratatui = "0.29"
serde_json = "1"
tempfile = "3"
