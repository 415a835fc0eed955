[package]
name = "sign-tx"
version = "0.1.0"
edition = "2021"
publish = false

[dependencies]
anyhow = "1"
bs58 = "0.5"
clap = { version = "4", features = ["derive", "env"] }
cryptoki-sys = "*"
ed25519-dalek = "2"
hostname = "0.4"
libloading = "0.8"
p256 = { version = "0.13", features = ["ecdsa"] }
serde = { version = "1", features = ["derive"] }
serde_json = "1"
sha2 = "0.10"
signal-hook = "0.3"
uuid = { version = "1", features = ["v4"] }
