[package]
name = "simplefin_rotki"
version = "0.1.0"
edition = "2021"
publish = false

[dependencies]
chrono = "=0.4.45"
axum = "=0.8.9"
tokio = { version = "=1.53.2", features = ["full"] }
clap = { version = "=4.6.7", features = ["derive"] }
toml = "=1.1.7"
serde = { version = "=1.0.229", features = ["derive"] }
serde_json = { version = "=1.0.151", features = ["arbitrary_precision"] }
reqwest = { version = "=0.13.5", default-features = false }
rust_decimal = "=1.43.0"

[dev-dependencies]
base64 = "=0.23.1"
