[package]
name = "scale_to_zero"
version = "0.1.0"
edition = "2021"
publish = false

[dependencies]
chrono = "0.4"
anyhow = "1"
log = "0.4"
env_logger = "*"
tokio = { version = "1", features = ["full"] }
futures = "0.3"
kube = { version = "*", features = ["runtime"] }
k8s-openapi = { version = "*", features = ["latest"] }
serde_json = "1"
aya = "*"
bytes = "1"
libc = "0.2"
network-interface = "*"
