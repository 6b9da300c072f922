[package]
name = "nebula"
version = "0.1.0"
edition = "2021"
publish = false

[dependencies]
sha2 = "0.10"
uuid = { version = "1", features = ["v5", "serde"] }
regex = "1"
serde = { version = "1", features = ["derive"] }
serde_json = "1"
prost = "*"
redis = "*"
ts-rs = "*"
