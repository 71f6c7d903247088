[package]
name = "f1_data"
version = "0.1.0"
edition = "2021"
publish = false

[dependencies]
serde = { version = "*", features = ["derive"] }
serde_json = "*"
thiserror = "*"
chrono = { version = "*", features = ["serde"] }
glam = { version = "*", features = ["serde"] }
