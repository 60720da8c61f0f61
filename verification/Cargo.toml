[package]
name = "clipvault"
version = "0.1.0"
edition = "2021"
publish = false

[dependencies]
anyhow = "1"
argon2 = "0.5"
blake3 = "1"
chacha20poly1305 = "0.10"
chrono = "0.4"
dirs-next = "2"
serde = { version = "1", features = ["derive"] }
serde_json = "1"
