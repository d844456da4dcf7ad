[package]
name = "html_extract"
version = "0.1.0"
edition = "2021"
publish = false

[dependencies]
kuchikiki = "*"
url = "*"
regex = "*"
serde = { version = "*", features = ["derive"] }
serde_json = "*"
tokio = { version = "*", features = ["rt"] }
log = "*"
env_logger = "*"
lopdf = "*"
