[package]
name = "tools_box"
version = "0.1.0"
edition = "2021"
publish = false

[dependencies]
urlencoding = "*"
serde_json = "*"
similar = "*"
pulldown-cmark = { version = "*", default-features = false }
uuid = { version = "*", features = ["v4"] }
rusqlite = { version = "*", features = ["bundled"] }
chrono = "*"
dirs = "*"
anyhow = "*"
serde = { version = "*", features = ["derive"] }
reqwest = { version = "*", default-features = false, features = ["blocking", "rustls-tls"] }
