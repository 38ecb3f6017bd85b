[package]
name = "combat_log"
version = "0.1.0"
edition = "2021"
publish = false

[dependencies]
clap = { version = "*", features = ["derive"] }
serde = { version = "*", features = ["derive"] }
serde_json = "*"
sqlite = "*"

[dev-dependencies]
chrono = "*"
csv = "*"
