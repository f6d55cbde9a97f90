[package]
name = "tmd"
version = "0.1.0"
edition = "2021"
publish = false

[dependencies]
sha2 = "=0.11.0"
uuid = { version = "=1.27.0", features = ["v4"] }
chrono = "=0.4.45"
hex = "=0.4.3"
rusqlite = { version = "=0.40.2", features = ["bundled"] }
tempfile = "*"
anyhow = "=1.0.104"
base64 = "=0.23.1"
clap = { version = "=4.6.7", features = ["derive"] }
html-escape = "=0.2.15"
pulldown-cmark = "=0.13.4"

[dev-dependencies]
zip = "=8.6.0"
