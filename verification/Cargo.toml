[package]
name = "conmon_log"
version = "0.1.0"
edition = "2021"
publish = false

[dependencies]
anyhow = "1"
capnp = "*"
futures = "0.3"
serde_json = "1"
tokio = { version = "1", features = ["fs", "io-util", "sync"] }
tracing = "0.1"

[dev-dependencies]
tempfile = "3"
