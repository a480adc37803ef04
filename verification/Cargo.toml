[package]
name = "lcu_draft"
version = "0.1.0"
edition = "2021"
publish = false

[dependencies]
regex = "*"
serde = { version = "*", features = ["derive"] }
serde_json = "*"
reqwest = { version = "*", default-features = false, features = ["json", "rustls-tls"] }
tokio = { version = "*", features = ["rt-multi-thread", "macros", "time", "sync"] }
dirs = "*"
