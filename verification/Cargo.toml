[package]
name = "resguard"
version = "0.1.0"
edition = "2021"
publish = false

[dependencies]
anyhow = "1"
chrono = "0.4"
env_logger = "0.10"
log = "0.4"
nix = { version = "0.29", features = ["signal"] }
regex = "1"
serde = { version = "1", features = ["derive"] }
sysinfo = "0.29"
thiserror = "1"
tokio = { version = "1", features = ["full"] }
toml = "0.8"
