[package]
name = "indexify_core"
version = "0.1.0"
edition = "2021"
publish = false

[dependencies]
serde_json = "1"
mime_guess = "2"
serde = { version = "1", features = ["derive"] }
tokio = { version = "1", features = ["rt-multi-thread", "macros", "net", "signal", "sync", "time"] }
axum = "*"
