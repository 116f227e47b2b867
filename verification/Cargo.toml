[package]
name = "rustinsight"
version = "0.1.0"
edition = "2021"
publish = false

[dependencies]
anyhow = "1"
chrono = "0.4"
clap = { version = "4", features = ["derive"] }
colored = "*"
dialoguer = "*"
dirs = "*"
flate2 = "1"
futures = "0.3"
indicatif = "*"
reqwest = { version = "0.12", default-features = false, features = ["json", "rustls-tls", "stream"] }
serde = { version = "1", features = ["derive"] }
tar = "0.4"
tempfile = "3"
tokio = { version = "1", features = ["full"] }
webbrowser = "*"
