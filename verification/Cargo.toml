[package]
name = "bplus"
version = "0.1.0"
edition = "2021"
publish = false

[dependencies]
urlencoding = "*"
serde = { version = "*", features = ["derive"] }
serde_json = "*"
axum = "*"
tokio = { version = "*", features = ["rt-multi-thread", "macros", "net"] }
reqwest = { version = "*", default-features = false, features = ["json", "stream"] }
rusqlite = { version = "*", features = ["bundled"] }
scraper = "*"
futures = "*"
async-stream = "*"
