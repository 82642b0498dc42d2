[package]
name = "zenllm"
version = "0.1.0"
edition = "2021"
publish = false

[dependencies]
anyhow = "=1.0.104"
serde = { version = "=1.0.229", features = ["derive"] }
serde_json = "=1.0.154"
clap = { version = "=4.6.7", features = ["derive"] }
dirs = "=7.0.0"
sysinfo = "=0.40.1"
safetensors = "=0.8.0"
memmap2 = "=0.9.12"
metrics = "=0.24.6"
comfy-table = "=8.0.1"
tracing = "=0.1.44"
candle-core = { version = "=0.11.1", default-features = false }
tokio = { version = "1", features = ["macros", "rt-multi-thread"] }
reqwest = { version = "*", default-features = false }
hf-hub = { version = "*", default-features = false, features = ["ureq"] }
tracing-subscriber = "0.3"
