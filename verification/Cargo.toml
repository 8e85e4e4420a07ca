[package]
name = "pkw"
version = "0.1.0"
edition = "2021"
publish = false

[dependencies]
axum = "=0.8.9"
axum-extra = { version = "=0.12.6", features = ["typed-header"] }
axum-server = { version = "=0.8.0", features = ["tls-rustls"] }
clap = { version = "=4.6.7", features = ["derive"] }
color-eyre = "=0.6.5"
crossfire = "=3.1.22"
evalexpr = "=13.1.0"
eyre = "=0.6.14"
futures = "=0.3.34"
inotify = "=0.11.5"
itertools = "*"
json-patch = "=4.2.0"
jsonptr = "=0.8.2"
k8s-openapi = { version = "=0.29.0", features = ["latest"] }
kube = { version = "=5.0.0", features = ["client", "admission", "rustls-tls"] }
mimalloc = "=0.1.52"
rustls = "=0.23.46"
serde = { version = "=1.0.229", features = ["derive"] }
serde_json = "=1.0.154"
tokio = { version = "=1.54.1", features = ["full"] }
tracing = "=0.1.44"
tracing-error = "=0.2.1"
tracing-subscriber = { version = "=0.3.23", features = ["env-filter"] }
