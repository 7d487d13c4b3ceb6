[package]
name = "rfidx"
version = "0.1.0"
edition = "2021"
publish = false

[dependencies]
anyhow = "1"
env_logger = "*"
glob = "0.3"
log = "0.4"
notify = "4"
path-absolutize = "3"
rayon = "1"
serde = { version = "1", features = ["derive"] }
tokio = { version = "1", features = ["macros", "rt-multi-thread", "sync"] }
walkdir = "2"
warp = "0.3"
