[package]
name = "reality_tls"
version = "0.1.0"
edition = "2021"
publish = false

[dependencies]
aes-gcm = "0.10"
base64 = "0.22"
ed25519-dalek = "2"
hmac = "0.12"
rand_core = { version = "0.6", features = ["getrandom"] }
rustls-pki-types = "1"
sha2 = "0.10"
x25519-dalek = { version = "2", features = ["static_secrets"] }
