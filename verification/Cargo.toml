[package]
name = "jk"
version = "0.1.0"
edition = "2021"
publish = false

[dependencies]
anyhow = "1"
base64 = "0.13"
clap = { version = "4", features = ["derive"] }
dirs = "*"
pipe = "*"
reqwest = { version = "0.11", default-features = false, features = ["blocking", "cookies", "rustls-tls"] }
serde = { version = "1", features = ["derive"] }
toml = "*"
tungstenite = "*"
uuid = { version = "0.8", features = ["v4"] }
