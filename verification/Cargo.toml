[package]
name = "mockd"
version = "0.1.0"
edition = "2021"
publish = false

[dependencies]
regex = "*"
serde = { version = "*", features = ["derive"] }
serde_json = "*"
serde_yaml = "*"
actix-web = "*"
clap = { version = "*", features = ["derive"] }
env_logger = "*"
log = "*"
futures = "*"
notify = "*"
notify-debouncer-full = "*"
tokio = { version = "*", features = ["sync", "rt"] }
