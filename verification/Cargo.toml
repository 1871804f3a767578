[package]
name = "rusteria"
version = "0.1.0"
edition = "2021"
publish = false

[dependencies]
byteorder = "1"
bytes = "1"
clap = "4"
env_logger = "0.11"
futures = "0.3"
log = "0.4"
mio = { version = "1", features = ["os-poll", "net"] }
quiche = "*"
ring = "0.17"
tokio = { version = "1", features = ["full"] }
tokio-quiche = "*"
