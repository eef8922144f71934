[package]
name = "vox"
version = "0.1.0"
edition = "2021"
publish = false

[dependencies]
base64 = "=0.22.1"
unicode-normalization = "=0.1.26"
serde = { version = "1", features = ["derive"] }
serde_json = "1"
