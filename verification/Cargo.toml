[package]
name = "rustbelt"
version = "0.1.0"
edition = "2021"
publish = false

[dependencies]
bimap = "*"
clap = { version = "*", features = ["derive"] }
crossbeam-channel = "*"
serde = { version = "*", features = ["derive"] }
serde_json = "*"
