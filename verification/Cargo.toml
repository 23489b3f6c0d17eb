[package]
name = "ir"
version = "0.1.0"
edition = "2021"
publish = false

[dependencies]
saphyr = "=0.3.3"
serde = { version = "=1.0.229", features = ["derive"] }
serde_json = "=1.0.154"
