[package]
name = "models_dev_cli"
version = "0.1.0"
edition = "2021"
publish = false

[dependencies]
crossterm = "0.28"
nucleo-matcher = "0.3"
ratatui = "0.29"
reqwest = { version = "0.12", default-features = false, features = ["blocking", "rustls-tls"] }
serde = { version = "1", features = ["derive"] }
serde_json = "1"
tui-input = "0.11"
