[package]
name = "spectraguard"
version = "0.1.0"
edition = "2021"
publish = false

[dependencies]
anyhow = "1"
axum = { version = "*", features = ["ws"] }
chrono = "0.4"
clap = { version = "4", features = ["derive"] }
crossterm = "*"
csv = "1"
ratatui = "*"
serde = { version = "1", features = ["derive"] }
serde_json = "1"
smartcore = "*"
tokio = { version = "1", features = ["full"] }
tower-http = { version = "*", features = ["cors"] }
uuid = { version = "1", features = ["v4"] }
