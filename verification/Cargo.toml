[package]
name = "luakit"
version = "0.1.0"
edition = "2021"
publish = false

[dependencies]
base64 = "0.22"
cookie_store = "*"
getrandom = "0.3"
mlua = { version = "*", features = ["lua54", "vendored", "async", "serialize", "send"] }
reqwest = { version = "0.12", default-features = false, features = ["cookies", "json", "multipart"] }
scraper = "*"
serde = "1"
serde_json = "1"
serde_urlencoded = "*"
tokio = { version = "1", features = ["rt", "time", "macros"] }
url = "2"
