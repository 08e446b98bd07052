[package]
name = "replay_watch"
version = "0.1.0"
edition = "2021"
publish = false

[dependencies]
dirs = "*"
notify = "*"
reqwest = { version = "0.12", default-features = false, features = ["blocking", "multipart", "rustls-tls"] }
