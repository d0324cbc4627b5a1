[package]
name = "doonop"
version = "0.1.0"
edition = "2021"
publish = false

[dependencies]
url = "=2.5.8"
fancy-regex = "=0.20.0"
cylon = "=0.3.3"
futures-util = "=0.3.34"
serde_json = "=1.0.154"
tokio = { version = "=1.54.1", features = ["rt-multi-thread", "macros", "sync", "signal", "time"] }
async-channel = "=2.5.0"
async-trait = "=0.1.92"
clap = { version = "=4.6.7", features = ["derive"] }
thirtyfour = "=0.25.1"
log = "=0.4.34"
pretty_env_logger = "=0.5.0"
reqwest = "=0.11.27"
snafu = "=0.9.2"
anyhow = "=1.0.104"
siderunner = "=0.2.0"
