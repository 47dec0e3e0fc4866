[package]
name = "embed_server"
version = "0.1.0"
edition = "2021"
publish = false

[dependencies]
anyhow = "1"
axum = "*"
base64 = "*"
bincode = { version = "2", features = ["serde"] }
libc = "0.2"
metrics = "*"
metrics-exporter-prometheus = { version = "*", default-features = false, features = ["http-listener"] }
moka = { version = "0.12", features = ["sync"] }
ndarray = "*"
ort = { version = "2.0.0-rc.11", default-features = false, features = ["std", "ndarray", "load-dynamic"] }
ort-sys = { version = "2.0.0-rc.11", default-features = false }
serde = { version = "1", features = ["derive"] }
sha2 = "0.10"
tokenizers = { version = "*", default-features = false, features = ["fancy-regex"] }
tokio = { version = "1", features = ["rt-multi-thread", "macros", "sync", "time", "net", "signal", "io-util", "process"] }
tokio-util = { version = "*", features = ["rt"] }
tracing = "*"
tracing-subscriber = { version = "*", features = ["env-filter"] }
