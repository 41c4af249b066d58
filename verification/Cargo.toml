[package]
name = "disk_analyzer"
version = "0.1.0"
edition = "2021"
publish = false

[dependencies]
archery = "=1.2.3"
mime_guess = "=2.0.5"
rpds = "=1.2.1"
thiserror = "=1.0.69"
winapi = { version = "0.3", features = ["fileapi"] }
