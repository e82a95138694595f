[package]
name = "rust_exercises"
version = "0.1.0"
edition = "2021"
publish = false

[dependencies]
chrono = { version = "=0.4.45", default-features = false, features = ["clock"] }
eframe = { version = "=0.27.2", default-features = false, features = ["glow"] }
rdev = { version = "=0.5.3", features = ["unstable_grab"] }
