[package]
name = "chess_server"
version = "0.1.0"
edition = "2021"
publish = false

[dependencies]
chess = "*"
tokio = { version = "*", features = ["full"] }
log = "*"
env_logger = "*"

[dev-dependencies]
serde_cbor = "*"
