[package]
name = "kprint"
version = "0.1.0"
edition = "2021"
publish = false

[dependencies]
actix-cors = "*"
actix-web = "4"
anyhow = "1"
dotenvy = "*"
env_logger = "*"
futures = "0.3"
http = "*"
ipp = "*"
itertools = "*"
log = "0.4"
openidconnect = "3"
serde = { version = "1", features = ["derive"] }
thiserror = "1"
tokio = { version = "1", features = ["sync"] }
tokio-util = { version = "0.7", features = ["compat", "io"] }
uuid = { version = "1", features = ["serde"] }
