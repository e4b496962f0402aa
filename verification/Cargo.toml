[package]
name = "ntnu_timeplan_api"
version = "0.1.0"
edition = "2021"
publish = false

[dependencies]
data-encoding = "=2.11.1"
icalendar = "=0.17.14"
chrono = "=0.4.45"
serde = { version = "=1.0.229", features = ["derive"] }
serde_json = "=1.0.151"
reqwest = { version = "=0.13.5", default-features = false, features = ["query"] }
scraper = "=0.27.0"
axum = "=0.8.9"
tokio = { version = "=1.53.2", features = ["rt-multi-thread", "macros", "net", "time", "sync"] }
tower-http = { version = "=0.6.11", features = ["cors"] }

[dev-dependencies]
rmp = "=0.8.15"
