[package]
name = "surf_vcr"
version = "0.1.0"
edition = "2021"
publish = false

[dependencies]
async-std = "1"
once_cell = "1"
serde = { version = "1", features = ["derive"] }
serde_yaml = "0.8"
surf = { version = "2", default-features = false }
