[package]
name = "spacetime_trivia"
version = "0.1.0"
edition = "2021"
publish = false

[dependencies]
spacetimedb = "1.0"
serde = { version = "1", features = ["derive"] }
