[package]
name = "web_scrapper"
version = "0.1.0"
edition = "2021"
publish = false

[dependencies]
csv = "1"
duckdb = { version = "*", default-features = false }
regex = "1"
reqwest = { version = "0.12", default-features = false, features = ["blocking", "rustls-tls"] }
scraper = "*"
select = "0.6"
serde = { version = "1", features = ["derive"] }
serde_json = "1"
