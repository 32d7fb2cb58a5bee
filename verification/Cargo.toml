[package]
name = "sweeprun"
version = "0.1.0"
edition = "2021"
publish = false

[dependencies]
anyhow = "*"
async-ssh2-tokio = "*"
clap = { version = "*", features = ["derive"] }
crossbeam-queue = "*"
futures = "*"
home = "*"
log = "*"
self_cell = "*"
serde = { version = "*", features = ["derive"] }
spdlog-rs = "*"
ssh_config = "*"
tokio = { version = "*", features = ["full"] }
toml = "*"
