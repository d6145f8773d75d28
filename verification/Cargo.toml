[package]
name = "ttd"
version = "0.1.0"
edition = "2021"
publish = false

[dependencies]
anyhow = "=1.0.104"
base64 = "=0.22.1"
clap = { version = "=4.6.7", features = ["derive"] }
dirs = "=7.0.0"
env_logger = "=0.11.11"
evdev = { version = "=0.13.2", features = ["tokio", "stream-trait"] }
jiff = "=0.2.38"
log = "=0.4.34"
rmp-serde = "=1.3.1"
serde = { version = "=1.0.229", features = ["derive"] }
tokio = { version = "=1.54.1", features = ["full"] }
tokio-stream = "=0.1.19"
toml = "=1.1.8"
