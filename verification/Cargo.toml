[package]
name = "scoreboard"
version = "0.1.0"
edition = "2021"
publish = false

[dependencies]
actix-files = "0.6"
actix-multipart = { version = "0.6", default-features = false }
actix-web = { version = "4", default-features = false, features = ["macros"] }
actix-web-httpauth = "0.8"
env_logger = { version = "0.11", default-features = false }
futures = "0.3"
serde = "1"
serde_derive = "1"
serde_json = "1"
