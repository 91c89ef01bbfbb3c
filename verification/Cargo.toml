[package]
name = "mivi"
version = "0.1.0"
edition = "2021"
publish = false

[dependencies]
serde = { version = "=1.0.229", features = ["derive"] }
serde_json = "=1.0.154"
serde_yaml = "=0.9.34"
clap = { version = "=4.6.7", features = ["derive"] }
anyhow = "=1.0.104"
thiserror = "=1.0.69"
chrono = "=0.4.45"
uuid = { version = "=1.29.0", features = ["v4", "serde"] }
byteorder = "=1.5.0"
memmap2 = "=0.9.12"
tracing = "=0.1.44"
tokio = { version = "1", features = ["rt-multi-thread", "macros", "sync", "time", "signal"] }
