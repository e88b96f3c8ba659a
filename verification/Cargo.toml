[package]
name = "dxr"
version = "0.1.0"
edition = "2021"
publish = false

[dependencies]
base64 = "0.13"

[dev-dependencies]
chrono = "0.4"
