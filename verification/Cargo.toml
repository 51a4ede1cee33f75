[package]
name = "gift_hat"
version = "0.1.0"
edition = "2021"
publish = false

[dependencies]
rand = "=0.8.8"
serde = { version = "=1.0.229", features = ["derive"] }
egui = "=0.19.0"
eframe = { version = "=0.19.0", features = ["persistence"] }
