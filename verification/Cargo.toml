[package]
name = "texturizer"
version = "0.1.0"
edition = "2021"
publish = false

[dependencies]
image = "*"
glob = "*"
log = "*"
env_logger = "*"
anyhow = "*"
