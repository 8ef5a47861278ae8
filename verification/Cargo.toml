[package]
name = "rql"
version = "0.1.0"
edition = "2021"
publish = false

[dependencies]
bincode = "1.3"
bytemuck = "1"
env_logger = "0.11"
flume = "0.11"
log = "0.4"
pollster = "0.3"
prettytable-rs = "0.10"
regex = "1"
serde = { version = "1", features = ["derive"] }
wgpu = "23"
