[package]
name = "axum_apiserver"
version = "0.1.0"
edition = "2021"
publish = false

[dependencies]
axum = "0.7"
indexmap = { version = "2", features = ["serde"] }
minijinja = { version = "2", features = ["loader"] }
serde = { version = "1", features = ["derive"] }
serde_json = { version = "1", features = ["preserve_order"] }
thiserror = "1"
tokio = { version = "1", features = ["full"] }
tower-http = { version = "0.5", features = ["fs", "trace", "compression-gzip"] }
tracing = "0.1"
tracing-subscriber = { version = "0.3", features = ["env-filter"] }
