[package]
name = "mini_ftp"
version = "0.1.0"
edition = "2021"
publish = false

[dependencies]
colored = "*"
csv = "*"
env_logger = "*"
log = "*"
rustyline = "*"
serde = { version = "*", features = ["derive"] }
