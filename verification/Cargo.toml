[package]
name = "telegram_copilot"
version = "0.1.0"
edition = "2021"
publish = false

[dependencies]
uuid = { version = "=1.27.0", features = ["v4"] }
chrono = "=0.4.45"
serde = { version = "=1.0.229", features = ["derive"] }
serde_json = "=1.0.151"
tokio = { version = "=1.53.2", features = ["rt-multi-thread", "sync", "time", "macros"] }
tokio-util = "=0.7.19"
reqwest = { version = "=0.13.5", default-features = false, features = ["json"] }
rusqlite = { version = "=0.40.2", features = ["bundled"] }
grammers-client = "=0.10.0"
grammers-session = "=0.10.0"
grammers-tl-types = "=0.10.0"
glass_pumpkin = "=2.0.0-rc0"
