[package]
name = "sitegen"
version = "0.1.0"
edition = "2021"
publish = false

[dependencies]
anyhow = "=1.0.104"
clap = { version = "=4.6.7", features = ["derive"] }
ignore = "=0.4.33"
log = "=0.4.34"
markdown = "=1.0.0"
notify = "=8.2.0"
simple_logger = "=5.2.0"
tokio = { version = "=1.53.2", features = ["macros", "rt-multi-thread"] }
tungstenite = "=0.30.0"
warp = { version = "=0.4.3", features = ["server"] }
