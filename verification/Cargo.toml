[package]
name = "beet_discord"
version = "0.1.0"
edition = "2021"
publish = false

[dependencies]
twilight-model = "0.18.0"
serde = { version = "1.0.229", features = ["derive"] }
serde_json = "1.0.154"
tracing = "0.1.44"
beet = "0.0.8"
