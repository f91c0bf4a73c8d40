[package]
name = "log_error_rate"
version = "0.1.0"
edition = "2021"
publish = false

[dependencies]
flate2 = "*"
regex = "*"
serde = { version = "*", features = ["derive"] }
serde_json = "*"
clap = { version = "*", features = ["derive"] }
env_logger = "*"
log = "*"
glob = "*"
