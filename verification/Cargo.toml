[package]
name = "renewable_ts_axum"
version = "0.1.0"
edition = "2021"
publish = false

[dependencies]
axum = "0.8"
bigdecimal = "0.4"
chrono = { version = "0.4", features = ["serde"] }
csv = "1"
deadpool-diesel = { version = "0.6", features = ["postgres"] }
diesel = { version = "2", features = ["postgres", "chrono", "numeric"] }
diesel_migrations = "2"
dotenvy = "0.15"
serde = { version = "1", features = ["derive"] }
serde_json = "1"
thiserror = "2"
tokio = { version = "1", features = ["full"] }
tower-http = { version = "0.6", features = ["timeout", "trace"] }
tracing = "0.1"
