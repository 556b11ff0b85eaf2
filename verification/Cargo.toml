[package]
name = "fre"
version = "0.1.0"
edition = "2021"
publish = false

[dependencies]
uuid = { version = "1", features = ["v4", "v5", "serde"] }
mlua = { version = "0.10", features = ["lua54", "vendored"] }
pak-db = "*"
ordermap = { version = "0.5", features = ["serde"] }
line-span = "*"
lualexer = "*"
serde = { version = "1", features = ["derive"] }
serde_json = "1"
glob = "0.3"
base64 = "0.22"
thiserror = "2"
clap = { version = "4", features = ["cargo"] }
image = { version = "0.25", default-features = false, features = ["png", "jpeg", "webp"] }
