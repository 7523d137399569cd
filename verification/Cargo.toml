[package]
name = "widgitron"
version = "0.1.0"
edition = "2021"
publish = false

[dependencies]
aes-gcm = "0.10"
base64 = "0.22"
chrono = "0.4"
chrono-tz = "0.10"
log = "0.4"
once_cell = "1"
pbkdf2 = "0.12"
quick-xml = "0.37"
reqwest = { version = "0.12", default-features = false, features = ["rustls-tls", "json"] }
rusqlite = { version = "0.32", features = ["bundled"] }
semver = "1"
serde = { version = "1", features = ["derive"] }
serde_json = "1"
serde_yaml = "0.9"
sha1 = "0.10"
shellexpand = "3"
tokio = { version = "1", features = ["rt-multi-thread", "macros", "time"] }
url = "2"
