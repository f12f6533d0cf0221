[package]
name = "buffrs"
version = "0.1.0"
edition = "2021"
publish = false

[dependencies]
semver = "=1.0.28"
url = "=2.5.8"
sha2 = "=0.10.9"
pubgrub = "=0.3.0"
serde = { version = "=1.0.229", features = ["derive"] }
serde_json = "=1.0.154"
toml = "=0.8.23"
tokio = { version = "=1.54.1", features = ["fs", "rt", "macros"] }
walkdir = "=2.5.0"
reqwest = { version = "=0.12.28", default-features = false, features = ["rustls-tls"] }
flate2 = "=1.1.10"
tar = "=0.4.46"
zip = { version = "=2.6.1", default-features = false }
async-trait = "=0.1.92"
async-recursion = "=1.2.0"
miette = "=7.6.0"
thiserror = "=2.0.21"
tracing = "=0.1.44"
