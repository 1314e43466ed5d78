[package]
name = "apirunner"
version = "0.1.0"
edition = "2021"
publish = false

[dependencies]
base64 = "0.21"
uuid = { version = "1", features = ["v4"] }
serde = { version = "1", features = ["derive"] }
serde_json = "1"
serde_yaml = "0.9"
toml = "0.8"
tokio = { version = "1", features = ["rt-multi-thread", "macros", "sync", "time", "fs", "signal", "io-util"] }
clap = { version = "4", features = ["derive"] }
chrono = { version = "0.4", features = ["serde"] }
log = "0.4"
env_logger = "0.10"
regex = "1"
async-trait = "0.1"
anyhow = "1"
thiserror = "1"
fastrand = "2"
parking_lot = "0.12"
futures = "0.3"
jsonpath-rust = "0.3"
reqwest = { version = "0.11", default-features = false, features = ["json", "rustls-tls"] }
sled = "0.34"
prometheus = { version = "0.13", default-features = false }
sysinfo = "0.29"
aes-gcm = "0.10"
argon2 = "0.5"
zeroize = { version = "1", features = ["derive"] }
keyring = "2"
notify = "6"
