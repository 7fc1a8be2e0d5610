[package]
name = "hera"
version = "0.1.0"
edition = "2021"
publish = false

[dependencies]
anyhow = "1"
calamine = "*"
csv = "1"
docx-rust = "*"
pdf-extract = "*"
regex = "1"
serde = { version = "1", features = ["derive"] }
serde_json = "1"
tokio = { version = "1", features = ["full"] }
reqwest = { version = "*", default-features = false, features = ["blocking", "rustls-tls"] }
tokio-tungstenite = "*"
futures-util = "*"
rumqttc = "*"
notify = "*"
serialport = { version = "*", default-features = false }
uuid = { version = "1", features = ["v4"] }
tracing-subscriber = "*"
