[package]
name = "vt6"
version = "0.1.0"
edition = "2021"
publish = false

[dependencies]
base64 = "=0.13.1"
belog = "*"
bytes = "=1.12.1"
futures = "=0.3.34"
getrandom = "=0.2.17"
libc = "=0.2.191"
log = "0.4"
tokio = { version = "=1.54.1", features = ["io-util", "net", "rt", "signal", "sync", "time"] }
