[package]
name = "aether"
version = "0.1.0"
edition = "2021"
publish = false

[dependencies]
env_logger = "=0.8.4"
futures = "=0.3.34"
futures-util = "=0.3.34"
http = "=0.2.12"
hyper = { version = "=0.14.32", features = ["full"] }
k8s-openapi = { version = "=0.12.0", default-features = false, features = ["v1_20"] }
kube = { version = "=0.58.1", default-features = false, features = ["client", "rustls-tls"] }
log = "=0.4.34"
thiserror = "=1.0.69"
tokio = { version = "=1.54.1", features = ["full"] }
tokio-rustls = "=0.22.0"
