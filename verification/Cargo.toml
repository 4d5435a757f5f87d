[package]
name = "mieli"
version = "0.1.0"
edition = "2021"
publish = false

[dependencies]
url = "2"
serde = { version = "1", features = ["derive"] }
serde_json = "1"
directories = "*"
notify = "*"
rfd = "*"
sys-locale = "*"
objc2 = "*"
objc2-foundation = "*"
objc2-app-kit = "*"
block2 = "*"
