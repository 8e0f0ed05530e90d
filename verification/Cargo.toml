[package]
name = "turbine"
version = "0.1.0"
edition = "2021"
publish = false

[dependencies]
itertools = "0.10"
lru = "0.7"
rand = "0.7"
rand_chacha = "0.2"
bs58 = "0.4"
base64 = "0.13"
bincode = "1.3"
serde = { version = "1.0", features = ["derive"] }
serde_json = "1.0"
log = "0.4"
unix_socket = "0.5"
