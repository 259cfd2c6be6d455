[package]
name = "finance_app"
version = "0.1.0"
edition = "2021"
publish = false

[dependencies]
rusqlite = { version = "*", features = ["bundled", "array"] }
serde = { version = "*", features = ["derive"] }
