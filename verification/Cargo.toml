[package]
name = "unidrive"
version = "0.1.0"
edition = "2021"
publish = false

[dependencies]
rand = "=0.10.3"
chrono = { version = "=0.4.45", default-features = false, features = ["std"] }
serde = { version = "=1.0.229", features = ["derive"] }
serde_json = "=1.0.151"
tokio = { version = "=1.53.2", features = ["rt-multi-thread", "macros", "time", "sync"] }
actix-web = { version = "=4.15.0", default-features = false, features = ["macros"] }
reqwest = { version = "=0.13.5", default-features = false, features = ["json", "form"] }
futures = "=0.3.34"
async-trait = "=0.1.92"
tracing = "=0.1.44"
influxdb = "=0.8.0"
uuid = { version = "=1.27.0", features = ["v4"] }
