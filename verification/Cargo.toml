[package]
name = "mavlink_cli"
version = "0.1.0"
edition = "2021"
publish = false

[dependencies]
chrono = "*"
mavlink = "*"
clap = { version = "*", features = ["derive"] }
serde = { version = "*", features = ["derive"] }
serde_json = "*"
once_cell = "*"
arc-swap = "*"
