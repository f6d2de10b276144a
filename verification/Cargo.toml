[package]
name = "hyprdashboard"
version = "0.1.0"
edition = "2021"
publish = false

[dependencies]
dirs = "*"
env_logger = "*"
log = "*"
serde = { version = "*", features = ["derive"] }
toml = "*"
xdg = "*"
