[package]
name = "tellstickreport"
version = "0.1.0"
edition = "2021"
publish = false

[dependencies]
rustc-serialize = "=0.3.25"
websocket = { version = "0.26", default-features = false, features = ["sync"] }
libc = "=0.2.191"
time = "=0.1.45"
log = "=0.3.9"
env_logger = "=0.3.5"
