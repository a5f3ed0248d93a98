[package]
name = "canvas_core"
version = "0.1.0"
edition = "2021"
publish = false

[dependencies]
rand = "0.9"
axum = "*"
axum-tws = "*"
axum_static = "*"
tokio = { version = "1", features = ["rt-multi-thread", "macros", "net", "sync", "time"] }
futures = "*"
tracing = "*"
tracing-subscriber = { version = "*", features = ["env-filter"] }
chrono = "*"
uuid = { version = "*", features = ["v4"] }
thiserror = "*"
