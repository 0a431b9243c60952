[package]
name = "chert"
version = "0.1.0"
edition = "2021"
publish = false

[dependencies]
regex = "1"
cidr = "0.2"
serde = { version = "1", features = ["derive"] }
serde_json = "1"
