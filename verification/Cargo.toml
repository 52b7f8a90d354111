[package]
name = "tano"
version = "0.1.0"
edition = "2021"
publish = false

[dependencies]
encoding_rs = "0.8"
scraper = "*"
reqwest = { version = "0.12", default-features = false, features = ["blocking", "cookies", "rustls-tls"] }
cookie_store = "*"
ratatui = "*"
crossterm = "*"
color-eyre = "0.6"

[dev-dependencies]
regex-lite = "0.1"
