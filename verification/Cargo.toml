[package]
name = "fy-docs"
version = "0.1.10"
edition = "2021"
publish = false

[dependencies]
anyhow = "*"
axum = "*"
clap = { version = "*", features = ["derive"] }
notify = "*"
open = "*"
tempfile = "*"
tokio = { version = "*", features = ["full"] }
tokio-stream = { version = "*", features = ["sync"] }
toml = "*"
tower-http = { version = "*", features = ["fs"] }
