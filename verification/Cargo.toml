[package]
name = "struqture"
version = "0.1.0"
edition = "2021"
publish = false

[dependencies]
qoqo_calculator = "*"
serde = { version = "1", features = ["derive"] }
serde_json = "1"
bincode = "1"
