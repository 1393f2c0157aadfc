[package]
name = "fengni"
version = "0.4.0"
edition = "2021"
publish = false

[dependencies]
chacha20poly1305 = "0.10"
hkdf = "0.12"
hmac = "0.12"
sha2 = "0.10"
thiserror = "2"
x25519-dalek = { version = "2", features = ["static_secrets"] }

[dev-dependencies]
prost = { version = "0.13", default-features = false, features = ["std"] }
