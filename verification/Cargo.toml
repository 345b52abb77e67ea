[package]
name = "dps_meter"
version = "0.1.0"
edition = "2021"
publish = false

[dependencies]
anyhow = "1"
image = { version = "0.25", default-features = false, features = ["bmp", "jpeg", "png"] }
log = "0.4"
ndarray = { version = "0.16", default-features = false, features = ["std"] }
opencv = "*"
tempfile = "3"
tesseract-static = "*"
