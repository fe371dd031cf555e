[package]
name = "hp_instant_ink_cli"
version = "0.1.0"
edition = "2021"
publish = false

[dependencies]
anyhow = "=1.0.104"
chrono = { version = "=0.4.45", features = ["serde"] }
chrono-tz = "=0.10.4"
clap = { version = "=4.6.7", features = ["derive"] }
colored = "=3.1.1"
dirs = "=7.0.0"
env_logger = "=0.11.11"
log = "=0.4.34"
reqwest = { version = "=0.12.28", default-features = false }
serde = { version = "=1.0.229", features = ["derive"] }
serde_json = "=1.0.151"
tabled = "=0.22.0"
thiserror = "=2.0.21"
tokio = { version = "=1.53.2", features = ["macros", "rt-multi-thread"] }
