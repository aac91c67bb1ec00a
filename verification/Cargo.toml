[package]
name = "console_ui"
version = "0.1.0"
edition = "2021"
publish = false

[dependencies]
unicode-width = "*"
crossterm = "*"
serde = { version = "1", features = ["derive"] }
serde_json = "1"
