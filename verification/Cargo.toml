[package]
name = "ledger_dht"
version = "0.1.0"
edition = "2021"
publish = false

[dependencies]
ring = "*"
hex = "*"
log = "*"
serde = { version = "*", features = ["derive"] }
serde_json = "*"
