[package]
name = "compaction_planner"
version = "0.1.0"
edition = "2021"
publish = false

[dependencies]
anyhow = "=1.0.104"
arrow = { version = "=32.0.0", default-features = false }
async-trait = "=0.1.92"
chrono = { version = "=0.4.38", default-features = false }
datafusion = { version = "=18.0.0", default-features = false }
etcd-client = "=0.21.1"
hyper = "=0.14.32"
once_cell = "=1.21.4"
serde = { version = "=1.0.229", features = ["derive"] }
serde_json = "=1.0.154"
snafu = "=0.7.5"
tokio-util = "=0.7.20"
