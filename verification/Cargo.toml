[package]
name = "bgfastnet_lib"
version = "0.1.0"
edition = "2021"
publish = false

[dependencies]
chrono = "0.4"
env_logger = "*"
log = "0.4"
serial = "0.4"
serialport = { version = "4", default-features = false }
socketcan = "*"
