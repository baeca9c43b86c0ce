[package]
name = "gutter_detection"
version = "0.1.0"
edition = "2021"
publish = false

[dependencies]
image = { version = "0.25", default-features = false, features = ["png", "jpeg", "gif", "bmp", "tiff", "webp", "pnm", "tga", "ico", "qoi"] }
indicatif = "0.17"
clap = { version = "4", features = ["derive"] }
