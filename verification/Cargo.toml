[package]
name = "aw_notify"
version = "0.1.0"
edition = "2021"
publish = false

[dependencies]
chrono = "=0.4.45"
aw-client-rust = "=0.1.0"
clap = { version = "=4.6.7", features = ["derive"] }
dashmap = "=6.2.1"
notify-rust = "=4.18.2"
hostname = "=0.4.2"
anyhow = "=1.0.104"
log = "=0.4.35"
env_logger = "=0.11.11"
serde_json = "=1.0.154"
reqwest = { version = "=0.10.10", features = ["json", "blocking"] }
