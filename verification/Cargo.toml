[package]
name = "paragon_proto"
version = "0.1.0"
edition = "2021"
publish = false

[dependencies]
heapless = "0.8"
x25519-dalek = { version = "2", features = ["static_secrets"] }
chacha20poly1305 = "0.10"
rand_core = "0.6"
aes-gcm = "0.10"
