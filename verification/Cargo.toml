[package]
name = "zenithds"
version = "0.1.0"
edition = "2021"
publish = false

[dependencies]
axum = "0.8"
csv = "1"
regex = "1"
serde = { version = "1", features = ["derive"] }
tokio = { version = "1", features = ["rt-multi-thread", "macros", "net"] }
