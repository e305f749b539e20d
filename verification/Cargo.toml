[package]
name = "fid"
version = "0.1.0"
edition = "2021"
publish = false

[dependencies]
anstyle = "*"
anyhow = "*"
clap = { version = "*", features = ["derive"] }
colored = "*"
crossterm = "*"
dirs = "*"
env_logger = "*"
log = "*"
serde = { version = "*", features = ["derive"] }
toml = "*"
