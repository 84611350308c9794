[package]
name = "rnidbg"
version = "0.1.0"
edition = "2021"
publish = false

[dependencies]
anyhow = "1"
bytes = "1"
chrono = "0.4"
env_logger = "0.11"
hashbag = "0.1"
indexmap = "2"
log = "0.4"
rand = "0.8"
