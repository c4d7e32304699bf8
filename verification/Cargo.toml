[package]
name = "blog_engine"
version = "0.1.0"
edition = "2021"
publish = false

[dependencies]
pulldown-cmark = "*"
anyhow = "1"
axum = "0.7"
serde = { version = "1", features = ["derive"] }
thiserror = "1"
tokio = { version = "1", features = ["macros", "rt-multi-thread", "net"] }
toml = "0.8"
tower = "0.4"
tower-http = { version = "0.5", features = ["fs", "trace", "compression-br", "compression-gzip", "compression-deflate"] }
tracing = "0.1"
tracing-subscriber = { version = "0.3", features = ["env-filter"] }
