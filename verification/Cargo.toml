[package]
name = "ambient_proxy"
version = "0.1.0"
edition = "2021"
publish = false

[dependencies]
anyhow = "1"
axum = "0.6"
bincode = "1.3"
bytes = "1"
config = "0.13"
flate2 = "1"
flume = "0.10"
futures = "0.3"
parking_lot = "0.12"
prometheus-client = "0.19"
quinn = "0.10"
reqwest = { version = "0.11", default-features = false, features = ["rustls-tls"] }
rustls = "0.21"
rustls-native-certs = "0.6"
rustls-pemfile = "1"
serde = { version = "1", features = ["derive"] }
thiserror = "1"
tokio = { version = "1", features = ["full"] }
tokio-util = { version = "0.7", features = ["codec"] }
tower-http = { version = "0.4", features = ["cors"] }
tracing = "0.1"
tracing-bunyan-formatter = "0.3"
tracing-log = "0.1"
tracing-stackdriver = "0.7"
tracing-subscriber = { version = "0.3", features = ["env-filter"] }
uuid = { version = "1", features = ["serde", "v4"] }
