[package]
name = "mcproxy"
version = "0.1.0"
edition = "2021"
publish = false

[dependencies]
axum = "=0.8.9"
futures = "=0.3.34"
libc = "0.2"
reqwest = { version = "=0.12.28", default-features = false, features = ["json", "stream"] }
rmcp = { version = "=0.2.1", features = ["server", "client", "transport-streamable-http-server", "transport-streamable-http-client", "__reqwest"] }
serde = { version = "1", features = ["derive"] }
serde_json = "=1.0.154"
sse-stream = "=0.2.6"
tantivy = { version = "=0.24.2", default-features = false, features = ["stopwords"] }
tokio = { version = "1", features = ["full"] }
tower = "=0.5.3"
tower-http = { version = "=0.6.11", features = ["cors"] }
tracing = "0.1"
tracing-subscriber = { version = "0.3", features = ["env-filter", "json"] }
