[package]
name = "reporocket"
version = "0.1.0"
edition = "2021"
publish = false

[dependencies]
anyhow = "1"
open = "5"
percent-encoding = "2"
serde = { version = "1", features = ["derive"] }
serde_json = "1"
ureq = { version = "3", features = ["json"] }
url = "2"
zip = { version = "2", default-features = false, features = ["deflate"] }
