[package]
name = "drisk_api"
version = "0.1.0"
edition = "2021"
publish = false

[dependencies]
bincode = "1.3"
hashbrown = { version = "0.14", features = ["serde"] }
pyo3 = { version = "0.21", features = ["extension-module"] }
serde = { version = "1", features = ["derive"] }
serde_json = "1"
uuid = "1"
