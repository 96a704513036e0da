[package]
name = "dashcam-hud"
version = "0.1.0"
edition = "2021"
publish = false

[dependencies]
anyhow = "1"
clap = { version = "4", features = ["derive"] }
exiftool = "*"
image = { version = "0.25", default-features = false, features = ["png"] }
imageproc = { version = "0.25", default-features = false }
indicatif = "0.17"
quick-error = "2"
rayon = "1"
serde = { version = "1", features = ["derive"] }
serde_json = "1"
