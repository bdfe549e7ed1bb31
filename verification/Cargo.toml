[package]
name = "ghost_core"
version = "0.1.0"
edition = "2021"
publish = false

[dependencies]
blake3 = "=1.8.7"
hkdf = "=0.12.4"
sha2 = "=0.10.9"
aes-gcm = "=0.10.3"
argon2 = "=0.5.3"
rand = "=0.8.8"
ed25519-dalek = "=2.2.0"
x25519-dalek = { version = "=2.0.1", features = ["static_secrets"] }
hex = "=0.4.3"
sframe = "=2.1.0"
serde = { version = "=1.0.229", features = ["derive"] }
serde_json = "=1.0.154"
toml = "=0.8.23"
base64 = "0.22"
url = "2"
