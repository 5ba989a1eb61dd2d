[package]
name = "re_lidar_slam"
version = "0.1.0"
edition = "2021"
publish = false

[dependencies]
anyhow = "1"
env_logger = "0.11"
foldhash = "0.2"
log = "0.4"
nalgebra = "0.33"
nohash-hasher = "0.2"
pcd-rs = { version = "*", features = ["derive"] }
plotters = { version = "0.3", default-features = false, features = ["bitmap_backend", "bitmap_encoder", "line_series"] }
rustc-hash = "2"
serde = { version = "1", features = ["derive"] }
serde_json = "1"
