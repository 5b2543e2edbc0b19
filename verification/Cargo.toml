[package]
name = "jvm_exporter"
version = "0.3.6"
edition = "2021"
publish = false

[dependencies]
regex = "=1.13.1"
clap = "=4.6.7"
env_logger = "=0.11.11"
futures = "=0.3.34"
log = "=0.4.34"
netstat = "=0.7.0"
prometheus = "=0.14.0"
serde = { version = "=1.0.229", features = ["derive"] }
serde_yaml = "=0.9.34"
sysinfo = "=0.39.6"
tokio = { version = "=1.53.2", features = ["full"] }
ureq = "=3.4.2"
warp = { version = "=0.4.3", features = ["server"] }
