[package]
name = "hardwave"
version = "0.1.0"
edition = "2021"
publish = false

[dependencies]
semver = "=1.0.28"
serde = { version = "=1.0.229", features = ["derive"] }
serde_json = "=1.0.154"
uuid = { version = "=1.29.0", features = ["v4"] }
chrono = "=0.4.45"
rmp-serde = "=1.3.1"
zstd = "=0.13.4"
log = "=0.4.35"
sha2 = "0.10"
flacenc = { version = "0.4", default-features = false }
shine-rs = "*"
hound = "3"
dirs = "*"
