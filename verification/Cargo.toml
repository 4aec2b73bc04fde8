[package]
name = "subwatch"
version = "0.1.0"
edition = "2021"
publish = false

[dependencies]
anyhow = "*"
chrono = "*"
chrono-tz = "*"
clap = { version = "*", features = ["derive"] }
directories = "*"
iana-time-zone = "*"
notify-rust = { version = "*", default-features = false, features = ["z"] }
reqwest = { version = "*", default-features = false, features = ["blocking", "json", "rustls-tls"] }
rusqlite = { version = "*", features = ["bundled"] }
serde_json = "*"
