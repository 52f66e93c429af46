[package]
name = "tmuxd"
version = "0.1.0"
edition = "2021"
publish = false

[dependencies]
anyhow = "1"
git2 = "*"
netstat2 = "*"
reqwest = { version = "*", default-features = false, features = ["json"] }
serde = { version = "1", features = ["derive"] }
serde_json = "1"
serde_yaml = "*"
tokio = { version = "1", features = ["full"] }
tracing = "*"
tracing-subscriber = { version = "*", features = ["env-filter"] }
