[package]
name = "stakker_log"
version = "0.1.0"
edition = "2021"
publish = false

[dependencies]
stakker = "*"

[dev-dependencies]
serde_json = "*"
