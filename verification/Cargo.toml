[package]
name = "worst_minecraft_launcher"
version = "0.1.0"
edition = "2021"
publish = false

[dependencies]
sha1 = "=0.10.7"
serde = { version = "=1.0.229", features = ["derive"] }
reqwest = { version = "=0.12.28", default-features = false, features = ["json"] }
tokio = { version = "=1.54.1", features = ["rt-multi-thread", "fs", "io-util"] }
log = "=0.4.35"
env_logger = "=0.11.11"
thiserror = "=1.0.69"
eframe = { version = "=0.29.1", default-features = false, features = ["glow", "x11"] }
