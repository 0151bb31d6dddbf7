[package]
name = "scrolls"
version = "0.1.0"
edition = "2021"
publish = false

[dependencies]
hex = "0.4"
bech32 = "0.9"
blake2 = "0.10"
pallas = "*"
serde = { version = "1", features = ["derive"] }
serde_json = "1"
