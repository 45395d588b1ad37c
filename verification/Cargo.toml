[package]
name = "throttle-kit"
version = "1.1.2"
edition = "2021"
rust-version = "1.85"
publish = false

[dependencies]
axum = { version = "=0.8.9", default-features = false, features = ["tokio"] }
dashmap = "=6.2.1"
http = "=1.5.0"
metrics = "0.24"
redis = { version = "=0.27.6", features = ["tokio-comp"] }
rusqlite = { version = "=0.32.1", features = ["bundled"] }
thiserror = "=2.0.21"
tokio = { version = "=1.54.1", features = ["rt", "rt-multi-thread", "macros", "time"] }
tower = "=0.5.3"
tower-layer = "=0.3.3"
tracing = "=0.1.44"
