[package]
name = "fanbox_archive"
version = "0.1.0"
edition = "2021"
publish = false

[dependencies]
clap = { version = "4", features = ["derive"] }
env_logger = "0.11"
imagesize = "*"
log = "0.4"
mime_guess = "2"
rayon = "1"
serde = { version = "1", features = ["derive"] }
serde_json = "1"
zip = "*"
