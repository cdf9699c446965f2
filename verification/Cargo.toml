[package]
name = "s3proxy"
version = "0.1.0"
edition = "2021"
publish = false

[dependencies]
aws-credential-types = "=1.3.1"
aws-sigv4 = "=1.6.3"
blake3 = { version = "=1.8.7", features = ["pure"] }
chrono = { version = "=0.4.45", features = ["serde"] }
clap = { version = "=4.6.7", features = ["derive", "env"] }
futures-util = "=0.3.34"
http = "=1.5.0"
hyper = { version = "=0.14.32", features = ["full"] }
quick-xml = { version = "=0.31.0", features = ["serialize"] }
reqwest = { version = "=0.11.27", features = ["stream"] }
serde = { version = "=1.0.229", features = ["derive"] }
serde_json = "=1.0.154"
serde_urlencoded = "=0.7.1"
sha2 = "=0.10.9"
thiserror = "=1.0.69"
tokio = { version = "=1.54.1", features = ["full"] }
tokio-util = { version = "=0.7.20", features = ["io"] }
tracing = "=0.1.44"
tracing-subscriber = { version = "=0.3.23", features = ["env-filter"] }
