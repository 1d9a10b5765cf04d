[package]
name = "headson"
version = "0.1.0"
edition = "2021"
publish = false

[dependencies]
anyhow = "1"
clap = { version = "4", features = ["derive"] }
content_inspector = "0.2"
pyo3 = "*"
regex = "1"
serde_json = { version = "1", features = ["preserve_order"] }
unicode-segmentation = "1"
yaml-rust2 = "*"
