[package]
name = "zengin"
version = "0.1.0"
edition = "2021"
publish = false

[dependencies]
include_dir = "0.7"
regex = "1"
serde = { version = "1", features = ["derive"] }
serde_json = "1"
