[package]
name = "jolajoamemo"
version = "0.1.0"
edition = "2021"
publish = false

[dependencies]
aes-gcm = "*"
base64 = "*"
rand = "*"
regex = "*"
urlencoding = "*"
serde = { version = "*", features = ["derive"] }
serde_json = "*"
rusqlite = { version = "*", features = ["bundled"] }
chrono = "*"
calamine = "*"
dirs = "*"
scraper = "*"
