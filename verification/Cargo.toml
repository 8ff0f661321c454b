[package]
name = "timesheet_billing"
version = "0.1.0"
edition = "2021"
publish = false

[dependencies]
num-rational = { version = "0.4", default-features = false, features = ["std"] }
chrono = "0.4"
chrono-tz = "*"
kv = { version = "*", features = ["json-value"] }
reqwest = { version = "0.11", default-features = false, features = ["json", "rustls-tls"] }
serde = { version = "1", features = ["derive"] }
serde_json = "1"
tokio = { version = "1", features = ["macros", "rt-multi-thread", "fs", "io-util", "time"] }
toml = "0.5"
