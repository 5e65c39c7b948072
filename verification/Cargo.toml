[package]
name = "hsmslog"
version = "0.1.0"
edition = "2021"
publish = false

[dependencies]
serde = { version = "*", features = ["derive"] }
serde_json = "*"
csv = "*"
uuid = { version = "*", features = ["v4"] }
rmp-serde = "*"
arrow = { version = "*", default-features = false, features = ["ipc"] }
axum = { version = "*", features = ["multipart"] }
tokio = { version = "*", features = ["rt-multi-thread", "net", "macros"] }
tower-http = { version = "*", features = ["cors"] }
