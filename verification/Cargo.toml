[package]
name = "canvashare-server"
version = "0.1.0"
edition = "2021"
publish = false

[dependencies]
actix = "=0.13.5"
actix-cors = "=0.7.2"
actix-web = { version = "=4.18.1", default-features = false, features = ["macros", "ws"] }
actix-web-actors = "=4.3.1"
bytes = "=1.12.1"
serde = { version = "=1.0.229", features = ["derive"] }
