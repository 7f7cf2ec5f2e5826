[package]
name = "tosm"
version = "0.1.0"
edition = "2021"
publish = false

[dependencies]
brotli = "=9.0.0"
kdtree = "=0.7.0"
serde = { version = "=1.0.229", features = ["derive"] }
serde_json = "=1.0.154"
