[package]
name = "rust-hf-downloader"
version = "0.1.0"
edition = "2021"
publish = false

[dependencies]
regex = "=1.13.1"
urlencoding = "=2.1.3"
serde = { version = "=1.0.229", features = ["derive"] }
serde_json = "=1.0.154"
toml = "=0.8.23"
clap = { version = "=4.6.7", features = ["derive"] }
dirs = "=5.0.1"
tokio = { version = "=1.54.1", features = ["full"] }
reqwest = { version = "=0.12.28", default-features = false, features = ["json", "stream"] }
sha2 = "=0.10.9"
hex = "=0.4.3"
futures = "=0.3.34"
ratatui = "0.29"
crossterm = "0.28"
tui-input = "0.11"
