[package]
name = "mlxrs"
version = "0.1.0"
edition = "2021"
publish = false

[dependencies]
cpal = "0.17"
libc = "0.2"
serde = { version = "1", features = ["derive"] }
serde_json = "1"
