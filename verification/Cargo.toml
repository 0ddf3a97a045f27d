[package]
name = "browser"
version = "0.1.0"
edition = "2021"
publish = false

[dependencies]
url = "2"
reqwest = { version = "0.12", default-features = false, features = ["blocking", "rustls-tls"] }
winit = "0.30"
pixels = "0.15"
fontdue = "0.9"
fontdb = "*"
font8x8 = "0.3"
arboard = "3"
