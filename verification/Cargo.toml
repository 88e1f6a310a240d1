[package]
name = "mirra"
version = "0.1.0"
edition = "2021"
publish = false

[dependencies]
base64 = "0.13"
blake3 = { version = "1", features = ["pure"] }
clap = { version = "3", features = ["derive"] }
dialoguer = "0.10"
env_logger = "0.9"
fs4 = "0.6"
hyper = { version = "0.14", features = ["full"] }
indicatif = "0.16"
log = "0.4"
notify = "4"
rand = "0.8"
rsa = "0.6"
tokio = { version = "1", features = ["full"] }
tokio-util = { version = "0.7", features = ["codec"] }
toml = "0.5"
