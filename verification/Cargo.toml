[package]
name = "aseprite_packer"
version = "0.1.0"
edition = "2021"
publish = false

[dependencies]
asefile = "=0.3.8"
image = "=0.25.10"
ron = "=0.12.2"
serde = { version = "=1.0.229", features = ["derive"] }
texture_packer = "=0.30.0"
