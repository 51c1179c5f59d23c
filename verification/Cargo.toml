[package]
name = "repack_index"
version = "0.1.0"
edition = "2021"
publish = false

[dependencies]
scraper = "*"
ego-tree = "*"
rss = "*"
chrono = "*"
uuid = { version = "*", features = ["v4"] }
tokio = { version = "*", features = ["rt-multi-thread", "macros", "net"] }
tokio-postgres = "*"
reqwest = { version = "*", default-features = false, features = ["rustls-tls"] }
axum = "*"
