[package]
name = "theseus"
version = "0.1.0"
edition = "2021"
publish = false

[dependencies]
bytes = "1"
serde = { version = "1", features = ["derive"] }
serde_json = "1"
toml = "0.8"
url = "2"
zip = { version = "2", default-features = false, features = ["deflate"] }
