[package]
name = "icrab"
version = "0.1.0"
edition = "2021"
publish = false

[dependencies]
rusqlite = { version = "*", features = ["bundled"] }
serde = { version = "*", features = ["derive"] }
serde_json = "*"
toml = "*"
regex = "*"
tokio = { version = "*", features = ["macros", "rt-multi-thread", "sync", "time", "fs"] }
reqwest = { version = "*", default-features = false, features = ["rustls-tls", "json"] }

[dev-dependencies]
tempfile = "*"
