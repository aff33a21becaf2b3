[package]
name = "audio_server"
version = "0.1.0"
edition = "2021"
publish = false

[dependencies]
actix-web = "4"
chrono = "0.4"
hound = "3"
lazy_static = "1"
local-ip-address = "*"
rand = "0.8"
rodio = "*"
serde = { version = "1", features = ["derive"] }
sha256 = "*"
zip = "*"
