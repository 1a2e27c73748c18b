[package]
name = "movable"
version = "0.1.0"
edition = "2021"
publish = false

[dependencies]
fastcdc = "=3.2.1"
protokit = { version = "=0.2.0", features = ["grpc", "textformat"] }
tokio = { version = "=1.54.1", features = ["full"] }
tonic = "=0.9.2"
http = "=0.2.12"
axum = "=0.6.20"
hyperlocal = "=0.8.0"
bollard = "=0.15.0"
docker_plugin = "=0.0.3"
async-fn-stream = "=0.3.2"
futures = "=0.3.34"
memmap = "=0.7.0"
anyhow = "=1.0.104"
async-trait = "=0.1.92"
tracing-subscriber = "=0.3.23"
