[package]
name = "wecom_cli"
version = "0.1.0"
edition = "2021"
publish = false

[dependencies]
anyhow = "=1.0.104"
base64 = "=0.22.1"
clap = { version = "=4.6.7", features = ["derive"] }
infer = "=0.16.0"
mime = "=0.3.17"
mime_guess = "=2.0.5"
reqwest = { version = "=0.12.28", default-features = false, features = ["json"] }
serde = { version = "=1.0.229", features = ["derive"] }
serde_json = { version = "=1.0.154", features = ["preserve_order"] }
tempfile = "=3.27.0"
tokio = { version = "=1.54.1", features = ["full"] }
