[package]
name = "network_status"
version = "0.1.0"
edition = "2021"
publish = false

[dependencies]
qrcode = { version = "*", default-features = false }
font8x8 = "*"
libc = "*"
image = { version = "*", default-features = false, features = ["png"] }
