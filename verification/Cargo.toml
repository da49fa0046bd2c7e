[package]
name = "liberty_core"
version = "0.1.0"
edition = "2021"
publish = false

[dependencies]
aes-gcm = "0.10"
chacha20poly1305 = "0.10"
rand = "0.8"
hkdf = "0.12"
sha2 = "0.10"
x25519-dalek = { version = "2", features = ["static_secrets"] }
ed25519-dalek = { version = "2", features = ["rand_core"] }
subtle = "2"
argon2 = "0.5"
serde = { version = "1", features = ["derive"] }
serde_json = "1"
regex = "1"
chrono = "0.4"
hex = "0.4"
zeroize = { version = "1", features = ["derive"] }
thiserror = "1"
once_cell = "1"
sled = "0.34"
tracing = "0.1"
tracing-subscriber = "0.3"
async-trait = "0.1"
pqcrypto-kyber = "0.8"
pqcrypto-traits = "0.3"
