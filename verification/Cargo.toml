[package]
name = "podinator"
version = "0.1.0"
edition = "2021"
publish = false

[dependencies]
quick-xml = "*"
chrono = "*"
serde = { version = "*", features = ["derive"] }
toml = "*"
reqwest = { version = "*", features = ["blocking"] }
