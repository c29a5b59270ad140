[package]
name = "quiche_moq"
version = "0.1.0"
edition = "2021"
publish = false

[dependencies]
octets = "*"
smallvec = "2.0.0-alpha"
quiche = "*"
log = "*"
url = "*"
clap = { version = "*", features = ["derive", "env"] }
env_logger = "*"
