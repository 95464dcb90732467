[package]
name = "aidoku_sources"
version = "0.1.0"
edition = "2021"
publish = false

[dependencies]
serde = { version = "1", features = ["derive"] }
serde_json = "1"
base64 = "0.22"
sha1 = "0.10"
sha2 = "0.10"
rsa = "0.9"
aes = "0.8"
chrono = { version = "0.4", default-features = false, features = ["alloc"] }
prost = "0.13"
getrandom = { version = "0.2", features = ["custom"] }
