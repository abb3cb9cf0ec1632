[package]
name = "leaky_snowflake_observer"
version = "0.1.0"
edition = "2021"
publish = false

[dependencies]
anyhow = "1"
bytes = "1"
dirs = "*"
flate2 = "1"
getopts = "*"
http-body-util = "0.1"
hyper = { version = "1", features = ["client", "http2"] }
oauth1-request = "*"
serde = { version = "1", features = ["derive"] }
serde_json = "1"
serde_yaml = "*"
tokio = { version = "1", features = ["full"] }
tokio-native-tls = "*"
tracing = "0.1"
tracing-subscriber = "*"
