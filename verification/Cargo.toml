[package]
name = "db"
version = "0.1.0"
edition = "2021"
publish = false

[dependencies]
chrono = "0.4"
error-chain = "0.12"
rand = "0.8"
reqwest = { version = "0.11", features = ["json"] }
serde = { version = "1", features = ["derive"] }
serde_json = "1"
structopt = "0.3"
tokio = { version = "1", features = ["macros", "rt-multi-thread"] }
