[package]
name = "branchwater_server"
version = "0.1.0"
edition = "2021"
publish = false

[dependencies]
axum = "=0.5.17"
camino = "=1.2.6"
clap = { version = "=4.6.7", features = ["derive"] }
color-eyre = "=0.6.5"
sentry = { version = "=0.31.8", default-features = false, features = ["tower", "tower-http", "tracing"] }
serde = { version = "=1.0.229", features = ["derive"] }
serde_json = "=1.0.154"
sourmash = "=0.23.0"
tokio = { version = "=1.54.1", features = ["full"] }
tower = { version = "=0.4.13", features = ["full"] }
tower-http = { version = "=0.3.5", features = ["fs", "trace"] }
tracing = "=0.1.44"
tracing-subscriber = { version = "=0.3.23", features = ["env-filter", "json"] }
