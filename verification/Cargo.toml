[package]
name = "man10_routine"
version = "0.1.0"
edition = "2021"
publish = false

[dependencies]
clap = { version = "=4.6.7", features = ["derive"] }
color-spantrace = "=0.3.0"
duration-str = "=0.21.0"
futures = "=0.3.34"
json-patch = "=4.2.0"
k8s-openapi = { version = "=0.27.1", features = ["latest"] }
kube = { version = "=3.1.0", features = ["ws", "jsonpatch"] }
serde = { version = "=1.0.229", features = ["derive"] }
serde_json = "=1.0.154"
serde_yaml = "=0.9.34"
thiserror = "=2.0.21"
tokio = { version = "=1.54.1", features = ["full"] }
tracing = "=0.1.44"
tracing-error = "=0.2.1"
tracing-subscriber = { version = "=0.3.23", features = ["env-filter"] }
