[package]
name = "butterfly"
version = "0.1.0"
edition = "2021"
publish = false

[dependencies]
rand = "0.8"
uuid = { version = "1", features = ["v4"] }
clap = "2"
ansi_term = "0.12"
env_logger = "0.11"
log = "0.4"

[dev-dependencies]
regex = "1"
protobuf = "3"
