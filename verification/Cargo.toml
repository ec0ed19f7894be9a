[package]
name = "rion"
version = "0.1.0"
edition = "2021"
publish = false

[dependencies]
anyhow = "=1.0.104"
async-trait = "=0.1.92"
axum = "=0.7.9"
axum-extra = { version = "=0.9.6", features = ["typed-header"] }
bincode = "=2.0.1"
block-id = "=0.2.1"
chrono = "=0.4.45"
nats = "=0.26.0"
once_cell = "=1.21.4"
redis = { version = "=0.25.5", features = ["tokio-comp"] }
regex = "=1.13.1"
serde = { version = "=1.0.229", features = ["derive"] }
serde_json = "=1.0.154"
thiserror = "=1.0.69"
time = { version = "=0.3.55", features = ["macros", "formatting"] }
tokio = { version = "=1.54.1", features = ["full"] }
toml = "=0.8.23"
tower = { version = "=0.4.13", features = ["timeout", "util"] }
tower-http = { version = "=0.5.2", features = ["cors", "compression-gzip"] }
tracing = "=0.1.44"
tracing-appender = "=0.2.5"
tracing-subscriber = { version = "=0.3.23", features = ["json", "time"] }
uuid = { version = "=1.29.0", features = ["v4"] }
validator = { version = "=0.16.1", features = ["derive"] }
webrtc = "=0.9.0"
