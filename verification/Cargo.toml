[package]
name = "fractal-gtk"
version = "0.1.0"
edition = "2021"
publish = false

[dependencies]
url = "2"
regex = "1"
md5 = "0.7"
chrono = "0.4"
ruma-identifiers = "0.17"
html2pango = "0.4"
serde_json = "1"
secret-service = "1"
