[package]
name = "vrp_pragmatic"
version = "0.1.0"
edition = "2021"
publish = false

[dependencies]
hashbrown = "=0.17.1"
serde = { version = "=1.0.229", features = ["derive"] }
serde_json = "=1.0.154"
time = { version = "0.3", features = ["parsing", "formatting"] }
vrp-core = "=1.25.0"
