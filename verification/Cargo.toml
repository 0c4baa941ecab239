[package]
name = "ann_dataset"
version = "0.1.0"
edition = "2021"
publish = false

[dependencies]
anyhow = "=1.0.104"
clap = { version = "=3.2.25", features = ["derive"] }
hdf5 = "=0.8.1"
indicatif = "=0.17.11"
linfa-linalg = "=0.1.0"
ndarray = { version = "=0.15.6", features = ["rayon"] }
roaring = "=0.10.12"
serde = { version = "=1.0.229", features = ["derive"] }
sprs = "=0.11.6"
