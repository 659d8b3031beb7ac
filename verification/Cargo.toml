[package]
name = "krunker_client"
version = "0.1.0"
edition = "2021"
publish = false

[dependencies]
ndarray = "*"
pathfinding = "*"
serde = { version = "1", features = ["derive"] }
serde_json = "1"
rmp-serde = "1"
regex = "1"
futures-util = "0.3"
tokio = { version = "1", features = ["rt-multi-thread", "macros", "time", "sync"] }
tokio-tungstenite = { version = "*", features = ["rustls-tls-webpki-roots"] }
reqwest = { version = "*", default-features = false, features = ["json", "rustls-tls"] }
