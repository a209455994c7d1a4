[package]
name = "yggdrasil"
version = "0.1.0"
edition = "2021"
publish = false

[dependencies]
anyhow = "=1.0.104"
bytes = "=1.12.1"
dashmap = "=6.2.1"
futures = "=0.3.34"
h3 = "=0.0.8"
h3-quinn = "=0.0.10"
hickory-resolver = "=0.24.4"
http = "=1.5.0"
http-body-util = "=0.1.5"
hyper = { version = "=1.12.0", features = ["server", "http1", "http2"] }
hyper-util = { version = "=0.1.21", features = ["server-auto", "server-graceful", "client-legacy", "http1", "http2", "tokio"] }
instant-acme = "=0.7.2"
metrics = "=0.24.6"
notify = "=6.1.1"
notify-debouncer-mini = "=0.4.1"
parking_lot = "=0.12.5"
quinn = { version = "=0.11.12", default-features = false, features = ["runtime-tokio", "rustls-ring"] }
rand = "=0.8.8"
rcgen = "=0.13.2"
reqwest = { version = "=0.12.28", default-features = false, features = ["json", "rustls-tls"] }
rustls = { version = "=0.23.46", default-features = false, features = ["ring", "std", "tls12", "logging"] }
serde = { version = "=1.0.229", features = ["derive"] }
serde_json = "=1.0.154"
tokio = { version = "=1.54.1", features = ["full"] }
tokio-rustls = { version = "=0.26.6", default-features = false, features = ["ring", "tls12"] }
tokio-util = { version = "=0.7.20", features = ["rt"] }
tracing = "=0.1.44"
url = "=2.5.8"
x509-parser = "=0.16.0"
