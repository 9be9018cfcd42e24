[package]
name = "relativistic_iphone"
version = "0.1.0"
edition = "2021"
publish = false

[dependencies]
glam = "*"
minifb = "*"
serde = { version = "*", features = ["derive"] }
serde_json = "*"
websocket = { version = "*", default-features = false, features = ["sync"] }
