[package]
name = "solana_mirror"
version = "0.1.0"
edition = "2021"
publish = false

[dependencies]
mpl-token-metadata = "*"
once_cell = "1"
reqwest = { version = "0.12", default-features = false, features = ["json", "rustls-tls"] }
serde = { version = "1", features = ["derive"] }
serde_json = "1"
solana-sdk = { version = "2", default-features = false }
tokio = { version = "1", features = ["sync"] }
