[package]
name = "brush"
version = "0.1.0"
edition = "2021"
publish = false

[dependencies]
burn = { version = "=0.22.1", default-features = false, features = ["flex", "autodiff"] }
rand = "=0.10.3"
tokio = { version = "=1.54.1", features = ["rt-multi-thread", "sync", "fs"] }
tokio-stream = "=0.1.19"
jni = "=0.22.4"
lazy_static = "=1.5.1"
log = "=0.4.35"
android_logger = "=0.15.1"
memory-stats = "=1.2.0"
parse-size = "=1.1.0"
serde = { version = "=1.0.229", features = ["derive"] }
serde_json = "=1.0.154"
clap = { version = "=4.6.7", features = ["derive"] }
glam = "=0.34.2"
tracing = "=0.1.44"
