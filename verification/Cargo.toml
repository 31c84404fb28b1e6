[package]
name = "gpuf_c"
version = "0.1.0"
edition = "2021"
publish = false

[dependencies]
hmac = "0.12"
sha2 = "0.10"
sha1 = "0.10"
md5 = "0.7"
crc32fast = "1"
uuid = { version = "1", features = ["v4"] }
url = "2"
hex = "0.4"
anyhow = "1"
clap = "4"
serde = { version = "1", features = ["derive"] }
serde_json = "1"
chrono = "0.4"
