[package]
name = "blackprism"
version = "0.1.0"
edition = "2021"
publish = false

[dependencies]
argon2 = "0.5"
blake3 = "1"
chacha20poly1305 = "0.10"
flate2 = "1"
hex = "0.4"
hkdf = "0.12"
machine-uid = "0.5"
pqcrypto-dilithium = "0.5"
pqcrypto-kyber = "0.8"
pqcrypto-traits = "0.3"
rand = "0.8"
reed-solomon-erasure = "6"
serde = { version = "1", features = ["derive"] }
serde_json = "1"
sha2 = "0.10"
sha3 = "0.10"
sharks = "0.5"
zeroize = "1"
