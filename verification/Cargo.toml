[package]
name = "ymir"
version = "0.1.0"
edition = "2021"
publish = false

[dependencies]
rand = "0.8"
rand_pcg = "0.3"
serde = { version = "1", features = ["derive"] }
serde_json = "1"
thiserror = "2"
csv = "1"
bincode = "1"
parquet = { version = "*", default-features = false }
egui = "*"
eframe = { version = "*", default-features = false, features = ["glow", "x11", "default_fonts", "persistence"] }
