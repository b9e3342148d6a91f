[package]
name = "anorak"
version = "0.1.0"
edition = "2021"
publish = false

[dependencies]
urlencoding = "2"
chrono = "0.4"
serde = { version = "1", features = ["derive"] }
serde_json = "1"
serde-xml-rs = "*"
axum = { version = "0.8", features = ["macros"] }
tokio = { version = "1", features = ["full"] }
tower = "0.5"
tower-http = { version = "0.6", features = ["fs"] }
reqwest = { version = "0.12", default-features = false }
minijinja = { version = "2", features = ["loader"] }
once_cell = "1"
log = "0.4"
pretty_env_logger = "0.5"
anyhow = "1"
ureq = { version = "3", default-features = false }
web-time = "1"
