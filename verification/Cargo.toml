[package]
name = "ipcanvas"
version = "0.1.0"
edition = "2021"
publish = false

[dependencies]
anyhow = "1"
aya = "*"
aya-ebpf = "0.1.1"
aya-log = "*"
aya-log-ebpf = "0.1.0"
clap = { version = "4", features = ["derive"] }
env_logger = "*"
fastwebsockets = { version = "*", features = ["upgrade"] }
futures = "0.3"
http-body-util = "*"
hyper = { version = "1", features = ["http1", "server"] }
hyper-util = { version = "*", features = ["tokio"] }
libc = "0.2"
log = "0.4"
network-types = "*"
tokio = { version = "1", features = ["full"] }
tracing = "0.1"
