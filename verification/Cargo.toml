[package]
name = "garroute"
version = "0.1.0"
edition = "2021"
publish = false

[dependencies]
serde_json = "*"
clap = { version = "*", features = ["derive"] }
curl = "*"
dns-lookup = "*"
env_logger = "*"
icmp-socket = "*"
log = "*"
prettytable-rs = "*"
