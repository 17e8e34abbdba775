[package]
name = "chat_core"
version = "0.1.0"
edition = "2021"
publish = false

[dependencies]
anyhow = "=1.0.104"
clap = "=2.34.0"
env_logger = "=0.9.3"
log = "=0.4.34"
prost = "=0.11.9"
tokio = { version = "=1.54.1", features = ["macros", "rt-multi-thread", "signal", "sync"] }
tokio-stream = "=0.1.19"
tonic = "=0.8.3"
