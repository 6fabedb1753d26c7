[package]
name = "nova_bridge"
version = "0.1.0"
edition = "2021"
publish = false

[dependencies]
clap = { version = "*", features = ["derive"] }
serde_json = "*"
mdns-sd = "*"
flume = "*"
opengolfcoach = "*"
