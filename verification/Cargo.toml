[package]
name = "pollux"
version = "0.1.0"
edition = "2021"
publish = false

[dependencies]
ahash = "*"
chrono = "*"
moka = { version = "*", features = ["sync"] }
rand = "*"
serde = { version = "*", features = ["derive"] }
serde_json = "*"
subtle = "*"
uuid = { version = "*", features = ["v4"] }
