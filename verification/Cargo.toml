[package]
name = "tifs"
version = "0.1.0"
edition = "2021"
publish = false

[dependencies]
parse-size = "1"
serde = { version = "1", features = ["derive"] }
toml = "0.8"
