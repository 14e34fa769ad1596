[package]
name = "aemm"
version = "0.1.0"
edition = "2021"
publish = false

[dependencies]
blake3 = "1"
image = { version = "0.25", default-features = false, features = ["png", "jpeg", "gif", "webp"] }
uuid = { version = "1", features = ["v4"] }
serde = { version = "1", features = ["derive"] }
serde_json = "1"
walkdir = "2"
zip = "*"
sevenz-rust2 = "*"
unrar = "*"
thiserror = "2"
tempfile = "3"

[dev-dependencies]
base64 = "0.22"
