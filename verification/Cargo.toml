[package]
name = "volo_codec"
version = "0.1.0"
edition = "2021"
publish = false

[dependencies]
bytes = "1"
flate2 = "1"
http = "1"
http-body = "1"
linkedbytes = "*"
motore = "*"
pilota = "*"
tokio = { version = "1", features = ["io-util"] }
zstd = "0.13"
