[package]
name = "zeptoclaw"
version = "0.1.0"
edition = "2021"
publish = false

[dependencies]
async-trait = "0.1"
axum = { version = "0.8", features = ["ws"] }
libc = "0.2"
serde_json = "1"
tokio = { version = "1", features = ["full"] }
tracing = "0.1"
