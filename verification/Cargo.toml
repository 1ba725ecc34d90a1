[package]
name = "moviematch"
version = "0.1.0"
edition = "2021"
publish = false

[dependencies]
csv = "*"
serde_json = "*"
serde = { version = "*", features = ["derive"] }
regex = "*"
chrono = "*"
tokio = { version = "*", features = ["macros", "rt-multi-thread"] }
