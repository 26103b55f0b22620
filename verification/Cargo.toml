[package]
name = "bsdkrun"
version = "0.1.0"
edition = "2021"
publish = false

[dependencies]
anyhow = "1"
serde = { version = "1", features = ["derive"] }
serde_json = "1"
toml = "*"
libc = "0.2"
tracing = "0.1"
tokio = { version = "1", default-features = false, features = ["rt"] }
sqlx = { version = "0.8", default-features = false, features = ["sqlite", "runtime-tokio"] }
