[package]
name = "image_tagger"
version = "0.1.0"
edition = "2021"
publish = false

[dependencies]
anyhow = "=1.0.104"
clap = { version = "=4.6.7", features = ["derive"] }
crossbeam-channel = "=0.5.17"
csv = "=1.4.0"
hf-hub = "=0.3.2"
image = { version = "=0.25.10", default-features = false, features = ["bmp", "gif", "jpeg", "png", "rayon", "tiff", "webp"] }
indicatif = "=0.17.11"
ndarray = "=0.16.1"
nshare = "=0.10.0"
num-traits = "=0.2.19"
ort = { version = "=2.0.0-rc.8", default-features = false, features = ["cuda", "half", "load-dynamic", "ndarray"] }
ort-sys = { version = "=2.0.0-rc.8", default-features = false }
rayon = "=1.12.0"
serde = { version = "=1.0.229", features = ["derive"] }
walkdir = "=2.5.0"
