[package]
name = "waf_rules"
version = "0.1.0"
edition = "2021"
publish = false

[dependencies]
regex = "=1.13.1"
aho-corasick = "=1.1.5"
ipnet = "=2.12.2"
globset = "=0.4.21"
serde = { version = "=1.0.229", features = ["derive"] }
serde_yaml = "=0.9.34"
serde_json = "=1.0.154"
anyhow = "=1.0.104"
base64 = "=0.22.1"
clap = { version = "=4.6.7", features = ["derive"] }
tokio = { version = "=1.54.1", features = ["full"] }
hyper = { version = "=1.12.0", features = ["full"] }
hyper-util = { version = "=0.1.21", features = ["full"] }
http-body-util = "=0.1.5"
bytes = "=1.12.1"
uuid = { version = "=1.29.0", features = ["v4"] }
chrono = "=0.4.45"
http = "=1.5.0"
zentinel-modsec = "*"
arc-swap = "1"
notify = "*"
tracing = "0.1"
tracing-subscriber = "0.3"
thiserror = "*"
reqwest = { version = "*", default-features = false, features = ["json"] }
