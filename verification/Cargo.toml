[package]
name = "bullarchy"
version = "0.1.0"
edition = "2021"
publish = false

[dependencies]
serde = { version = "=1.0.229", features = ["derive"] }
serde_json = "=1.0.154"
axum = "=0.8.9"
libc = "=0.2.191"
os_pipe = "=1.2.3"
rustyline = "=19.0.0"
