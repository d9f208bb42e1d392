[package]
name = "topcoat"
version = "0.1.0"
edition = "2021"
publish = false

[dependencies]
heck = "=0.5.0"
serde = { version = "=1.0.229", features = ["derive"] }
serde_json = "=1.0.154"
ureq = { version = "=3.5.1", default-features = false }
clap = { version = "=4.6.7", features = ["derive"] }
console = "=0.15.11"
tokio = { version = "=1.54.1", features = ["full"] }
axum = { version = "=0.8.9", features = ["ws"] }
futures-util = "=0.3.34"
http = "=1.5.0"
