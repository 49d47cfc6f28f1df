[package]
name = "balancebeam"
version = "0.1.0"
edition = "2021"
publish = false

[dependencies]
clap = { version = "4", features = ["derive"] }
crossbeam-channel = "0.5"
http = "0.2"
httparse = "1"
log = "0.4"
nix = "0.26"
pretty_env_logger = "0.5"
rand = "0.8"
reqwest = { version = "0.11", default-features = false }
substring = "1"
tokio = { version = "1", features = ["full"] }
