[package]
name = "squarify"
version = "0.1.0"
edition = "2021"
publish = false

[dependencies]
image = "*"
base64 = "*"
http-types = "*"
tide = "*"
async-std = { version = "*", features = ["attributes"] }
surf = { version = "*", default-features = false, features = ["h1-client-rustls"] }
