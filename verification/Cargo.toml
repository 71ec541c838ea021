[package]
name = "runs"
version = "0.1.0"
edition = "2021"
publish = false

[dependencies]
anyhow = "=1.0.104"
clap = { version = "=4.6.7", features = ["derive"] }
csv = "=1.4.0"
htmlescape = "=0.3.1"
itertools = "=0.15.0"
mail-parser = "=0.11.9"
reqwest = { version = "=0.13.5", default-features = false }
scraper = "=0.29.0"
serde_json = "=1.0.154"
