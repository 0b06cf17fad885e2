[package]
name = "descriptor_info"
version = "0.1.0"
edition = "2021"
publish = false

[dependencies]
bitcoin = "*"
elements-miniscript = "*"
hex = "*"
serde = { version = "*", features = ["derive"] }
serde_json = "*"
