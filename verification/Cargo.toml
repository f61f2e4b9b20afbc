[package]
name = "third_principles_bot"
version = "0.1.0"
edition = "2021"
publish = false

[dependencies]
azalea = { version = "0.16", default-features = false }
dotenvy = "0.15"
eyre = "0.6"
parking_lot = "0.12"
reqwest = { version = "0.12", default-features = false, features = ["json", "rustls-tls"] }
serde = { version = "1", features = ["derive"] }
serde_json = "1"
tokio = { version = "1", features = ["macros", "rt-multi-thread", "time"] }
tracing = "0.1"
tracing-appender = "0.2"
tracing-subscriber = { version = "0.3", features = ["json", "env-filter"] }
