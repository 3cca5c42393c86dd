[package]
name = "resonance"
version = "0.1.0"
edition = "2021"
publish = false

[dependencies]
url = "=2.5.8"
md-5 = "=0.10.6"
hex = "=0.4.3"
rand = "=0.9.5"
serde = { version = "=1.0.229", features = ["derive"] }
serde_json = "=1.0.154"
async-trait = "=0.1.92"
axum = "=0.8.9"
tokio = { version = "=1.54.1", features = ["macros", "rt-multi-thread", "net", "sync", "time"] }
reqwest = { version = "=0.12.28", default-features = false, features = ["json", "stream"] }
tower-http = { version = "=0.6.11", features = ["cors", "trace"] }
tracing = "=0.1.44"
tracing-subscriber = { version = "=0.3.23", features = ["env-filter"] }
uuid = { version = "=1.29.0", features = ["v4"] }
