[package]
name = "sdcore"
version = "0.1.0"
edition = "2021"
publish = false

[dependencies]
aead = { version = "=0.5.2", features = ["stream", "alloc"] }
chacha20poly1305 = { version = "=0.10.1", features = ["stream"] }
aes-gcm-siv = "=0.11.1"
argon2 = "=0.5.3"
blake3 = { version = "=1.8.7", default-features = false, features = ["pure"] }
rand = "=0.8.8"
zeroize = "=1.9.1"
subtle = "=2.6.1"
serde = { version = "=1.0.229", features = ["derive"] }
serde_json = "=1.0.154"
rmp-serde = "=1.3.1"
uuid = { version = "=1.29.0", features = ["v4", "serde"] }
thiserror = "=1.0.69"
async-trait = "=0.1.92"
tokio = { version = "=1.54.1", features = ["rt", "sync"] }
