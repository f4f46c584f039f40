[package]
name = "fantasy_esports"
version = "0.1.0"
edition = "2021"
publish = false

[dependencies]
uuid = { version = "0.8", features = ["v4", "serde"] }
rand = "0.7"
itertools = "0.9"
chrono = { version = "0.4", features = ["serde"] }
serde = { version = "1", features = ["derive"] }
serde_json = "1"
tokio = { version = "0.2", features = ["sync", "time", "rt-core", "macros"] }
futures = "0.3"
diesel = { version = "1.4", features = ["postgres", "chrono", "uuidv07", "serde_json"] }
