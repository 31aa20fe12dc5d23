[package]
name = "opendeck"
version = "0.1.0"
edition = "2021"
publish = false

[dependencies]
semver = "*"
urlencoding = "*"
serde = { version = "*", features = ["derive"] }
serde_json = "*"
json-patch = "*"
base64 = "*"
zip = { version = "*", default-features = false, features = ["deflate"] }
tiny_http = "*"
tokio = { version = "*", features = ["rt-multi-thread", "net", "time", "fs", "sync", "io-util", "macros"] }
tokio-tungstenite = "*"
futures-util = "*"
open = "*"
os_info = "*"
log = "*"
anyhow = "*"
