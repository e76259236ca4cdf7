[package]
name = "wallet_core"
version = "0.1.0"
edition = "2021"
publish = false

[dependencies]
rand = "0.8"
hex = "0.4"
serde = { version = "1", features = ["derive"] }
serde_json = "1"
serde-big-array = "0.5"
displaydoc = "0.2"
