[package]
name = "elcron"
version = "0.1.0"
edition = "2021"
publish = false

[dependencies]
xml-rs = "*"
chrono = "*"
log = "*"
env_logger = "*"
tokio = { version = "*", features = ["macros", "rt-multi-thread"] }
reqwest = { version = "*", default-features = false, features = ["rustls-tls"] }
rusqlite = { version = "*", features = ["bundled"] }
