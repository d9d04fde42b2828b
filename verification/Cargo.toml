[package]
name = "globin"
version = "0.1.0"
edition = "2021"
publish = false

[dependencies]
ahash = "0.8"
indexmap = "2"
serde = { version = "1", features = ["derive"] }
