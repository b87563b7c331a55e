[package]
name = "tsugi"
version = "0.1.0"
edition = "2021"
publish = false

[dependencies]
serde = { version = "1", features = ["derive"] }
serde_json = "1"
rusqlite = { version = "0.29", features = ["bundled"] }
reqwest = { version = "0.11", default-features = false, features = ["rustls-tls"] }
async-trait = "0.1"
tokio = { version = "1", features = ["rt", "rt-multi-thread", "time"] }
