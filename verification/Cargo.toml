[package]
name = "rust_website"
version = "0.1.0"
edition = "2021"
publish = false

[dependencies]
anyhow = "1"
askama = "0.12"
axum = "0.7"
axum-extra = { version = "0.9", features = ["cookie"] }
pulldown-cmark = { version = "0.12", default-features = false }
serde = { version = "1", features = ["derive"] }
time = "0.3"
tokio = { version = "1", features = ["full"] }
toml = "0.8"
tower = "0.5"
tower-http = { version = "0.6", features = ["fs", "trace", "set-header"] }
tracing = "0.1"
tracing-subscriber = { version = "0.3", features = ["env-filter"] }
