[package]
name = "maplayer"
version = "0.1.0"
edition = "2021"
publish = false

[dependencies]
serde = { version = "1", features = ["derive"] }
serde_json = "1"
tokio = { version = "1", features = ["full"] }
iroh = "*"
anyhow = "1"
clap = { version = "4", features = ["derive"] }
dirs = "*"
uuid = { version = "1", features = ["v4"] }
rand = "*"
tracing = "0.1"
tracing-subscriber = { version = "0.3", features = ["env-filter"] }
