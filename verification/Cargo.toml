[package]
name = "cripak"
version = "0.1.0"
edition = "2021"
publish = false

[dependencies]
anyhow = "1"
byteorder = "1"
clap = { version = "4", features = ["derive"] }
encoding_rs = "0.8"
env_logger = "0.11"
log = "0.4"
thiserror = "1"
