[package]
name = "fbug"
version = "0.1.0"
edition = "2021"
publish = false

[dependencies]
anyhow = "1"
chrono = "0.4"
clap = { version = "4", features = ["derive"] }
env_logger = "0.10"
futures = "0.3"
log = "0.4"
realpath = "*"
regex = "1"
rs-graph = "*"
serde = { version = "1", features = ["derive"] }
serde_yaml = "0.9"
serialport = { version = "4", default-features = false }
thiserror = "1"
titlecase = "*"
tokio = { version = "1", features = ["full"] }
tokio-serial = "5.4"
tokio-stream = "0.1"
tokio-util = { version = "0.7", features = ["codec"] }
