[package]
name = "net_exp_bridge"
version = "0.1.0"
edition = "2021"
publish = false

[dependencies]
env_logger = "*"
fastrand = "*"
log = "0.4"
rand = "0.8"
rmp-serde = "*"
serde = { version = "1", features = ["derive"] }
serde-pickle = "1"
