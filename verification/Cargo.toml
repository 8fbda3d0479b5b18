[package]
name = "mira_sharer"
version = "0.1.0"
edition = "2021"
publish = false

[dependencies]
anyhow = "1"
async-trait = "0.1"
axum = { version = "0.7", features = ["ws"] }
base64 = "0.21"
clap = { version = "4", features = ["derive"] }
directories = "5"
fern = "0.6"
futures-util = "0.3"
humantime = "2"
log = "0.4"
rand = "0.8"
serde = { version = "1", features = ["derive"] }
serde_json = "1"
tokio = { version = "1", features = ["full"] }
toml = "0.8"
uuid = { version = "1", features = ["v4"] }
