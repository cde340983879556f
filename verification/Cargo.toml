[package]
name = "stwo_metal"
version = "0.1.0"
edition = "2021"
publish = false

[dependencies]
bytemuck = "=1.25.2"
metal = { version = "=0.32.0", default-features = false }
serde = { version = "=1.0.229", features = ["derive"] }
