[package]
name = "todo_list"
version = "0.1.0"
edition = "2021"
publish = false

[dependencies]
chrono = { version = "0.4", features = ["serde"] }
crossterm = "*"
inquire = { version = "*", features = ["date"] }
serde = { version = "1", features = ["derive"] }
serde_json = "1"
