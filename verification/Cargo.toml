[package]
name = "auth_gateway"
version = "0.1.0"
edition = "2021"
publish = false

[dependencies]
anyhow = "*"
bytes = "*"
chrono = "*"
env_logger = "*"
futures = "*"
http-body-util = "*"
hyper = "*"
hyper-util = { version = "*", features = ["full"] }
log = "*"
quinn = "*"
rcgen = "*"
rustls = "*"
rustls-pemfile = "*"
serde = { version = "*", features = ["derive"] }
serde_json = "*"
thiserror = "*"
tokio = { version = "*", features = ["full"] }
tokio-rustls = "*"
tonic = "*"
tracing = "*"
