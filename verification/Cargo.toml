[package]
name = "outpack"
version = "0.1.0"
edition = "2021"
publish = false

[dependencies]
axum = "0.7"
md-5 = "0.10"
serde = { version = "1", features = ["derive"] }
serde_json = "1"
sha1 = "0.10"
sha2 = "0.10"
tempfile = "3"
tokio = { version = "1", features = ["rt-multi-thread", "net", "macros"] }
