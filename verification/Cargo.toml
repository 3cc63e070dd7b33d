[package]
name = "jmcore"
version = "0.1.0"
edition = "2021"
publish = false

[dependencies]
aes = "*"
base64 = "*"
cipher = "*"
ecb = "*"
image = "*"
md5 = "*"
serde = { version = "*", features = ["derive"] }
serde_json = "*"
urlencoding = "*"
reqwest = { version = "*", default-features = false, features = ["socks", "rustls-tls"] }
tokio = { version = "*", features = ["rt", "sync", "time", "macros"] }
