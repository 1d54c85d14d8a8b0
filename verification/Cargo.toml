[package]
name = "trust_platform"
version = "0.1.0"
edition = "2021"
publish = false

[dependencies]
serde = { version = "1", features = ["derive"] }
serde_json = "1"
toml = "0.8"
anyhow = "1"
clap = { version = "4", features = ["derive"] }
tokio = { version = "1", features = ["io-std", "io-util", "rt-multi-thread", "macros"] }
parking_lot = "0.12"
rustc-hash = "2"
smol_str = "0.2"
text-size = "1"
tower-lsp = "0.20"
