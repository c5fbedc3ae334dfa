[package]
name = "dev-storage-cleaner"
version = "0.1.0"
edition = "2021"
publish = false

[dependencies]
dirs = "5"
native-dialog = "0.7"
serde = { version = "1", features = ["derive"] }
serde_json = "1"
walkdir = "2"
