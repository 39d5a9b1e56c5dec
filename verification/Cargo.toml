[package]
name = "meme_crawler"
version = "0.1.0"
edition = "2021"
publish = false

[dependencies]
sha2 = "*"
chrono = "*"
scraper = "*"
reqwest = { version = "*", default-features = false }
tokio = { version = "*", features = ["rt-multi-thread", "macros", "time", "sync"] }
async-trait = "*"
serde = { version = "*", features = ["derive"] }
serde_json = "*"
urlencoding = "*"
anyhow = "*"
