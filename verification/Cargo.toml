[package]
name = "silero_vad"
version = "0.1.0"
edition = "2021"
publish = false

[dependencies]
hound = "=3.5.1"
ndarray = "=0.15.6"
ort = { version = "=2.0.0-rc.13", default-features = false, features = ["std"] }
serde = { version = "=1.0.229", features = ["derive"] }
