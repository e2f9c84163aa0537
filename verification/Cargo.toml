[package]
name = "pacemanbot"
version = "0.1.0"
edition = "2021"
publish = false

[dependencies]
serenity = "0.11"
tokio = { version = "1", features = ["macros", "rt-multi-thread", "time"] }
tokio-tungstenite = { version = "0.20", features = ["rustls-tls-webpki-roots"] }
serde = { version = "1", features = ["derive"] }
serde_json = "1"
dotenv = "0.15"
