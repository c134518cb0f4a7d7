[package]
name = "timem"
version = "0.1.0"
edition = "2021"
publish = false

[dependencies]
git2 = { version = "=0.21.0", default-features = false }
env_logger = "=0.11.11"
notify = "=8.2.0"
directories = "=6.0.0"
serde = { version = "=1.0.229", features = ["derive"] }
serde_json = "=1.0.151"
structopt = "=0.3.26"
humantime = "=2.4.0"
parse-size = "*"
chrono = "=0.4.45"
log = "=0.4.34"
anyhow = "=1.0.104"

[dev-dependencies]
tempfile = "=3.27.0"
