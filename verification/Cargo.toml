[package]
name = "threat-engine"
version = "0.1.0"
edition = "2021"
publish = false

[dependencies]
aho-corasick = "1"
axum = "0.7"
rand = "0.8"
rustc-hash = "1"
serde = { version = "1", features = ["derive"] }
tokio = { version = "1", features = ["macros", "net", "rt-multi-thread"] }
tower-http = { version = "0.5", features = ["cors"] }
tracing = "0.1"
tracing-subscriber = { version = "0.3", features = ["env-filter", "json"] }
