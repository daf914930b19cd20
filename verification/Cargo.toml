[package]
name = "remote_write_adapter"
version = "0.1.0"
edition = "2021"
publish = false

[dependencies]
snap = "1"
axum = "0.8"
tokio = { version = "1", features = ["full"] }
tower-http = { version = "0.6", features = ["trace"] }
tracing = "0.1"
tracing-subscriber = { version = "0.3", features = ["env-filter"] }
async-trait = "0.1"
rdkafka = "*"
futures = "0.3"
prometheus-client = "*"
rand = "0.9"
uuid = "1"

[dev-dependencies]
prost = "*"
