[package]
name = "gaming_tunnel"
version = "0.1.0"
edition = "2021"
publish = false

[dependencies]
reed-solomon-erasure = "=6.0.0"
bytes = "=1.12.1"
tokio = { version = "=1.54.1", features = ["full"] }
anyhow = "=1.0.104"
clap = { version = "=4.6.7", features = ["derive"] }
tracing = "=0.1.44"
tracing-subscriber = "=0.3.23"
libc = "=0.2.191"
