[package]
name = "konfig"
version = "0.1.0"
edition = "2021"
publish = false

[dependencies]
kube = { version = "=4.2.0", features = ["runtime", "derive", "client"] }
k8s-openapi = { version = "=0.28.0", features = ["latest"] }
serde = { version = "*", features = ["derive"] }
serde_json = "*"
schemars = "=1.2.2"
tokio = { version = "*", features = ["macros", "rt-multi-thread", "signal"] }
futures = "*"
log = "*"
env_logger = "*"
clap = { version = "*", features = ["derive"] }
gethostname = "*"
thiserror = "*"
