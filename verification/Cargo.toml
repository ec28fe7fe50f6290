[package]
name = "cognitive_writer"
version = "3.1.0"
edition = "2021"
publish = false

[dependencies]
pulldown-cmark = "0.12"
chrono = "0.4"
dialoguer = "0.11"
dotenvy = "0.15"
reqwest = { version = "0.12", default-features = false, features = ["json", "rustls-tls"] }
serde = { version = "1", features = ["derive"] }
serde_json = "1"
thiserror = "2"
tokio = { version = "1", features = ["full"] }
