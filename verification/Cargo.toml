[package]
name = "moonshine"
version = "0.1.0"
edition = "2021"
publish = false

[dependencies]
serde = { version = "1", features = ["derive"] }
serde_json = "1"
serde_yaml = "0.9"
indexmap = { version = "1", features = ["serde-1"] }
regex = "1"
clap = { version = "3", features = ["derive"] }
