[package]
name = "taskw"
version = "0.1.0"
edition = "2021"
publish = false

[dependencies]
serde_json = "*"
chrono = "*"
uuid = { version = "*", features = ["v4"] }
clap = { version = "*", features = ["derive"] }
log = "*"
env_logger = "*"

[dev-dependencies]
tempfile = "*"
