[package]
name = "ferrite_blocks"
version = "0.1.0"
edition = "2021"
publish = false

[dependencies]
anyhow = "1"
serde = { version = "1", features = ["derive"] }
serde_json = "1"
postcard = { version = "1", features = ["alloc"] }
num-complex = "0.4"
rustfft = "6"
tracing = "0.1"
web-time = "1"
