[package]
name = "tag_registry"
version = "0.1.0"
edition = "2021"
publish = false

[dependencies]
erased-serde = "0.4"
inventory = "0.3"
once_cell = "1"
serde = { version = "1", features = ["derive"] }
