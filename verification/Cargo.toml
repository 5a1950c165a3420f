[package]
name = "battlesnake_rs"
version = "0.1.0"
edition = "2021"
publish = false

[dependencies]
battlesnake-game-types = "*"
rustc-hash = "*"
serde = { version = "1", features = ["derive"] }
serde_json = "1"
rocket = { version = "0.5", features = ["json"] }
rocket_cors = "0.6"
tracing = "0.1"
tracing-subscriber = "0.3"
