[package]
name = "calsync"
version = "0.1.0"
edition = "2021"
publish = false

[dependencies]
chrono = "=0.4.45"
config = "=0.15.27"
icalendar = { version = "=0.17.14", features = ["chrono-tz"] }
notion = "=0.6.0"
reqwest = "=0.13.5"
serde = { version = "=1.0.229", features = ["derive"] }
serde_json = "=1.0.151"
tokio = { version = "=1.53.2", features = ["macros", "rt-multi-thread"] }
