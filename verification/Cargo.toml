[package]
name = "serde_nbt"
version = "0.1.0"
edition = "2021"
publish = false

[dependencies]
byteorder = "1"
serde = { version = "1", features = ["derive"] }
