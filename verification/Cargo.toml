[package]
name = "listener_pool"
version = "0.1.0"
edition = "2021"
publish = false

[dependencies]
axum = "*"
hyper = { version = "1", features = ["http1", "server"] }
hyper-util = { version = "0.1", features = ["tokio", "service"] }
serde = { version = "1", features = ["derive"] }
tokio = { version = "1", features = ["rt", "net", "time"] }
tower = { version = "*", features = ["util"] }
