[package]
name = "touche"
version = "0.1.0"
edition = "2021"
publish = false

[dependencies]
headers = "0.3"
http = "0.2"
httparse = "1"
rustls = "0.20"
thiserror = "1"
threadpool = "1.8"
