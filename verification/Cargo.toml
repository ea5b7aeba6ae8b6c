[package]
name = "sniproxy"
version = "0.1.0"
edition = "2021"
publish = false

[dependencies]
tokio = { version = "*", features = ["full"] }
flate2 = "*"
serde_json = "*"
quick-xml = "*"
roxmltree = "*"
serde = { version = "*", features = ["derive"] }
serde_yml = "*"
clap = { version = "*", features = ["derive"] }
prometheus = "*"
hyper = { version = "*", features = ["http1", "server"] }
hyper-util = { version = "*", features = ["tokio"] }
http-body-util = "*"
bytes = "*"
futures = "*"
dashmap = "*"
tracing = "*"
tracing-subscriber = { version = "*", features = ["env-filter", "json"] }
