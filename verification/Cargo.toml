[package]
name = "istio_lens"
version = "0.1.0"
edition = "2021"
publish = false

[dependencies]
chrono = "=0.4.45"
kube = { version = "=0.92.1", default-features = false, features = ["client", "derive", "rustls-tls"] }
k8s-openapi = { version = "=0.22.0", features = ["latest"] }
tokio = { version = "=1.54.1", features = ["macros", "rt-multi-thread", "sync", "time"] }
ratatui = "=0.27.0"
crossterm = "=0.27.0"
serde = { version = "=1.0.229", features = ["derive"] }
serde_yaml = "=0.9.34"
schemars = "=0.8.22"
thiserror = "=1.0.69"
anyhow = "=1.0.104"
