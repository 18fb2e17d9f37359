[package]
name = "bookworm"
version = "0.1.0"
edition = "2021"
publish = false

[dependencies]
dom_query = "*"
rusqlite = { version = "*", features = ["bundled"] }
