[package]
name = "load_balancer"
version = "0.1.0"
edition = "2021"
publish = false

[dependencies]
hyper = { version = "0.14", features = ["full"] }
tokio = { version = "1", features = ["full"] }
clap = "3"
log = "0.4"
env_logger = "0.10"
