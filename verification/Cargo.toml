[package]
name = "dirwatch"
version = "0.1.0"
edition = "2021"
publish = false

[dependencies]
inotify = "*"
futures = "*"
tokio = { version = "*", features = ["rt"] }
