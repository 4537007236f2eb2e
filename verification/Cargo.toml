[package]
name = "mtg_spoilers"
version = "0.1.0"
edition = "2021"
publish = false

[dependencies]
scraper = "*"
tempfile = "*"
tokio = { version = "*", features = ["fs", "rt", "rt-multi-thread", "macros"] }
reqwest = { version = "*", default-features = false, features = ["blocking"] }
futures = "*"
tracing-subscriber = { version = "*", features = ["env-filter"] }
