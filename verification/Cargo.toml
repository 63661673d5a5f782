[package]
name = "burncloud_download"
version = "0.1.0"
edition = "2021"
publish = false

[dependencies]
url = "*"
blake3 = "*"
uuid = { version = "*", features = ["v4"] }
serde = { version = "*", features = ["derive"] }
tokio = { version = "*", features = ["full"] }
anyhow = "*"
async-trait = "*"
thiserror = "*"
