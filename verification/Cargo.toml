[package]
name = "fab_card_collector"
version = "0.1.0"
edition = "2021"
publish = false

[dependencies]
chrono = "0.4"
reqwest = { version = "0.12", features = ["blocking"] }

[dev-dependencies]
serde_json = "1"
