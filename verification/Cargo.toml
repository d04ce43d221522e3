[package]
name = "keymapper"
version = "0.1.0"
edition = "2021"
publish = false

[dependencies]
anyhow = "*"
axum = "*"
clap = { version = "*", features = ["derive"] }
env_logger = "*"
evdev = { version = "*", features = ["tokio"] }
futures = "*"
log = "*"
parking_lot = "*"
serde = { version = "*", features = ["derive"] }
serde_yaml = "*"
tokio = { version = "*", features = ["full"] }
tower-http = { version = "*", features = ["fs"] }
uuid = { version = "*", features = ["v4"] }
