[package]
name = "rust_routing"
version = "0.1.0"
edition = "2021"
publish = false

[dependencies]
petgraph = "*"
uuid = { version = "*", features = ["v4"] }
chrono = "*"
rust_decimal = "*"
serde = { version = "*", features = ["derive"] }
anyhow = "*"
dotenvy = "*"
tokio = { version = "*", features = ["rt-multi-thread", "macros", "sync", "time", "net"] }
axum = "*"
redis = { version = "*", features = ["tokio-comp", "connection-manager"] }
surrealdb = { version = "*", default-features = false, features = ["protocol-ws"] }
tracing = "*"
tracing-subscriber = { version = "*", features = ["env-filter"] }
prometheus = "*"
