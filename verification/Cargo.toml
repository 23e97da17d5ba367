[package]
name = "music_catalog"
version = "0.1.0"
edition = "2021"
publish = false

[dependencies]
mp3-duration = "0.1"
actix-web = "4"
actix-multipart = "*"
actix-cors = "*"
actix-files = "*"
futures = "0.3"
tokio = { version = "1", features = ["fs", "io-util", "macros", "rt-multi-thread"] }
serde = { version = "1", features = ["derive"] }
serde_json = "1"
