[package]
name = "dependencies"
version = "0.1.0"
edition = "2021"
publish = false

[dependencies]
flate2 = "*"
hexpm = "=5.1.1"
http = "=1.5.0"
pubgrub = "=0.3.0"
serde = { version = "*", features = ["derive"] }
tar = "*"
tokio = { version = "*", features = ["rt-multi-thread"] }
toml = "*"
tracing = "*"
