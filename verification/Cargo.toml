[package]
name = "property_photos"
version = "0.1.0"
edition = "2021"
publish = false

[dependencies]
serde = { version = "=1.0.229", features = ["derive"] }
serde_json = "=1.0.154"
thiserror = "=2.0.21"
bytemuck = "=1.25.2"
turbojpeg = "=1.5.1"
base64 = "0.22"
