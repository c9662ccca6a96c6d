[package]
name = "ralph_core"
version = "0.1.0"
edition = "2021"
publish = false

[dependencies]
tungstenite = "*"
url = "*"
rusqlite = { version = "*", features = ["bundled"] }
