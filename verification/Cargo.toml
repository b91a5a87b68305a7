[package]
name = "sitemirror"
version = "0.1.0"
edition = "2021"
publish = false

[dependencies]
dashmap = "*"
reqwest = { version = "*", default-features = false }
scraper = "*"
tokio = { version = "*", features = ["rt-multi-thread", "macros", "fs", "sync", "time"] }
url = "*"
