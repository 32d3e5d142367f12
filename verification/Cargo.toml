[package]
name = "rave"
version = "0.1.0"
edition = "2021"
publish = false

[dependencies]
base64 = "*"
bytes = "*"
futures = "*"
http = "*"
openh264 = "*"
rand = "*"
tokio = { version = "*", features = ["net"] }
tokio-stream = "*"
tokio-util = { version = "*", features = ["codec"] }
