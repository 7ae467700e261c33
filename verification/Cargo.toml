[package]
name = "tileworld"
version = "0.1.0"
edition = "2021"
publish = false

[dependencies]
tokio = { version = "=1.53.2", features = ["full"] }
bcrypt = "=0.19.3"
uuid = { version = "=1.27.0", features = ["v4", "serde"] }
chrono = { version = "=0.4.45", features = ["serde"] }
serde = { version = "=1.0.229", features = ["derive"] }
serde_json = "=1.0.151"
warp = { version = "=0.4.3", features = ["server", "websocket"] }
futures = "=0.3.34"
tokio-tungstenite = "=0.30.0"
