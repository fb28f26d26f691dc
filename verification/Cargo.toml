[package]
name = "pptalk"
version = "0.1.0"
edition = "2021"
publish = false

[dependencies]
blake3 = "=1.8.7"
hex = "=0.4.3"
ed25519-dalek = { version = "=2.2.0", features = ["rand_core"] }
chacha20poly1305 = "=0.10.1"
rand = "=0.8.8"
serde = { version = "=1.0.229", features = ["derive"] }
ciborium = "=0.2.2"
thiserror = "=2.0.21"
time = "=0.3.55"
url = { version = "=2.5.8", features = ["serde"] }
base64 = "=0.22.1"
serde_json = "=1.0.154"
anyhow = "=1.0.104"
tokio = { version = "=1.54.1", features = ["full"] }
rusqlite = { version = "=0.37.0", features = ["bundled"] }
clap = { version = "=4.6.7", features = ["derive"] }
axum = "=0.8.9"
zeroize = { version = "=1.9.1", features = ["derive"] }
argon2 = "0.5"
