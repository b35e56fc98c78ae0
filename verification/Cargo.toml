[package]
name = "bluetooth_scanner"
version = "0.1.0"
edition = "2021"
publish = false

[dependencies]
btleplug = "*"
paho-mqtt = { version = "*", default-features = false, features = ["bundled"] }
pretty_env_logger = "*"
tokio = { version = "*", features = ["rt-multi-thread", "macros", "time"] }
