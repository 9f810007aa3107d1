[package]
name = "task_dispatch"
version = "0.1.0"
edition = "2021"
publish = false

[dependencies]
futures = "0.3"
num_cpus = "1"
serde_json = "1"
thiserror = "1"
tokio = { version = "1", features = ["rt", "rt-multi-thread", "sync", "time"] }
