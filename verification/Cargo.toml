[package]
name = "brave_proton"
version = "0.1.0"
edition = "2021"
publish = false

[dependencies]
anyhow = "=1.0.104"
cloudflare = "=0.14.0"
env_logger = "=0.11.11"
futures-util = "=0.3.34"
k8s-openapi = { version = "=0.27.1", features = ["latest"] }
kube = { version = "=3.1.0", features = ["runtime"] }
log = "=0.4.34"
tokio = { version = "=1.53.2", features = ["macros", "rt-multi-thread"] }
