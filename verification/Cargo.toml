[package]
name = "dsh-desktop"
version = "1.0.0"
edition = "2021"
publish = false

[dependencies]
url = "2"
serde = { version = "1", features = ["derive"] }
serde_json = "1"
tokio = { version = "1", features = ["rt-multi-thread", "macros", "process", "io-util", "time", "sync", "fs", "net"] }
reqwest = { version = "0.12", default-features = false, features = ["json", "rustls-tls"] }
