[package]
name = "cyberdeckstr"
version = "0.1.0"
edition = "2021"
publish = false

[dependencies]
textwrap = "0.16"
nostr-sdk = "*"
serde = { version = "1", features = ["derive"] }
toml = "*"
tokio = { version = "1", features = ["full"] }
reqwest = { version = "0.12", default-features = false, features = ["json", "rustls-tls"] }
bitcoincore-rpc = "*"
ratatui = "*"
crossterm = "*"
anyhow = "1"
tracing = "0.1"
tracing-appender = "0.2"
tracing-subscriber = "0.3"
