[package]
name = "coltec_daemon"
version = "0.1.0"
edition = "2021"
publish = false

[dependencies]
anyhow = "*"
chrono = { version = "*", features = ["serde"] }
clap = { version = "*", features = ["derive", "env"] }
directories = "*"
serde = { version = "*", features = ["derive"] }
serde_json = "*"
serde_yaml = "*"
thiserror = "*"
tokio = { version = "*", features = ["macros", "rt-multi-thread", "process", "time", "signal", "sync", "fs"] }
tracing = "*"
tracing-subscriber = { version = "*", features = ["env-filter", "json"] }
