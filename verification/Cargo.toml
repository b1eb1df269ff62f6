[package]
name = "soundboard"
version = "0.1.0"
edition = "2021"
publish = false

[dependencies]
actix = "*"
actix-files = "*"
actix-multipart = "*"
actix-web = "*"
actix-web-actors = "*"
env_logger = "*"
futures = "*"
log = "*"
rodio = "*"
serde = { version = "*", features = ["derive"] }
serde_json = "*"
