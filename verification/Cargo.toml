[package]
name = "taskstore"
version = "0.1.0"
edition = "2021"
publish = false

[dependencies]
chrono = "0.4"
uuid = { version = "1", features = ["v4"] }
serde = { version = "1", features = ["derive"] }
serde_json = "1"
csv = "1"
reqwest = { version = "0.12", default-features = false, features = ["json"] }
