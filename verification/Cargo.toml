[package]
name = "pemon"
version = "0.1.0"
edition = "2021"
publish = false

[dependencies]
clap = "2"
env_logger = "*"
error-chain = { version = "0.12", default-features = false }
log = "0.4"
nix = { version = "*", features = ["signal"] }
