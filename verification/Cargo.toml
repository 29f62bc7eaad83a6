[package]
name = "rregistry"
version = "0.1.0"
edition = "2021"
publish = false

[dependencies]
bincode = "=1.3.3"
r2d2 = "=0.8.10"
redis = { version = "=0.23.5", features = ["r2d2"] }
rocket = { version = "0.5", features = ["json"] }
serde = { version = "=1.0.229", features = ["derive"] }

[dev-dependencies]
regex = "=1.13.1"
