[package]
name = "feature_pipeline"
version = "0.1.0"
edition = "2021"
publish = false

[dependencies]
anyhow = "1"
async-channel = "2"
clap = { version = "4", features = ["derive"] }
dunce = "1"
futures = "0.3"
log = "0.4"
rubato = "*"
rustfft = "6"
sea-orm = { version = "*", default-features = false, features = ["macros"] }
symphonia = "0.5"
thiserror = "*"
tokio = { version = "1", features = ["macros", "rt-multi-thread", "sync", "time"] }
tokio-util = "0.7"
tracing-subscriber = { version = "0.3", features = ["env-filter"] }
