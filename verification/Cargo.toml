[package]
name = "project_tracker"
version = "0.1.0"
edition = "2021"
publish = false

[dependencies]
bcrypt = "*"
rusqlite = { version = "*", features = ["bundled"] }
