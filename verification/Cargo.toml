[package]
name = "chatroom"
version = "0.1.0"
edition = "2021"
publish = false

[dependencies]
md5 = "0.7"
serde_json = "1"
uuid = { version = "1", features = ["v4"] }
serde = { version = "1", features = ["derive"] }
salvo = { version = "0.37", features = ["jwt-auth", "ws", "serve-static"] }
sea-orm = { version = "0.11", default-features = false, features = ["macros", "with-json", "with-chrono"] }
tokio = { version = "1", features = ["full"] }
jsonwebtoken = "8"
chrono = "0.4"
time = "0.3"
imghdr = "0.7"
anyhow = "1"
futures-util = "0.3"
