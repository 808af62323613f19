[package]
name = "claude_code"
version = "0.1.0"
edition = "2021"
publish = false

[dependencies]
colored = "2"
terminal_size = "0.4"
serde = { version = "1", features = ["derive"] }
serde_json = "1"
anyhow = "1"
reqwest = { version = "0.12", default-features = false, features = ["blocking", "json", "rustls-tls"] }
