[package]
name = "scope2000"
version = "0.1.0"
edition = "2021"
publish = false

[dependencies]
chrono = { version = "=0.4.45", default-features = false, features = ["clock", "std"] }
serde = { version = "=1.0.229", features = ["derive"] }
serde_json = "=1.0.154"
toml = "=0.8.23"
dirs = "=5.0.1"
thiserror = "=1.0.69"
anyhow = "=1.0.104"
serialport = { version = "=4.10.1", default-features = false }
semver = "1"
roxmltree = "*"
walkdir = "2"
