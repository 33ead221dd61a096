[package]
name = "camera_exposure"
version = "0.1.0"
edition = "2021"
publish = false

[dependencies]
csv = "*"
gpx = "*"
hhmmss = "*"
serde = { version = "*", features = ["derive"] }
time = "*"
