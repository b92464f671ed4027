[package]
name = "merkle_membership"
version = "0.1.0"
edition = "2021"
publish = false

[dependencies]
bellman_ce = "=0.3.5"
pairing_ce = "=0.21.1"
ff_ce = "=0.10.3"
sapling-crypto_ce = "=0.1.3"
rand = "=0.4.6"
num-bigint = "=0.4.8"
num-traits = "=0.2.19"
hex = "=0.4.3"
wasm-bindgen = { version = "=0.2.129", features = ["serde-serialize"] }
serde = { version = "=1.0.229", features = ["derive"] }
serde_derive = "=1.0.229"
