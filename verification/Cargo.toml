[package]
name = "pipecap"
version = "0.1.0"
edition = "2021"
publish = false

[dependencies]
anyhow = "1"
ashpd = { version = "0.11", default-features = false, features = ["tokio"] }
libc = "0.2"
napi = { version = "3", default-features = false, features = ["napi6", "async"] }
napi-derive = "3"
pipewire = "0.9"
tokio = { version = "1", features = ["rt"] }
