[package]
name = "ping_template"
version = "0.1.0"
edition = "2021"
publish = false

[dependencies]
pnet = "*"
socket2 = "*"
tokio = { version = "1", features = ["full"] }
futures = "*"
clap = { version = "4", features = ["derive"] }
rand = "*"
log = "*"
env_logger = "*"
thiserror = "*"
console-subscriber = "*"
