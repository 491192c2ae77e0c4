[package]
name = "sdroxide"
version = "0.1.0"
edition = "2021"
publish = false

[dependencies]
mfsk-core = { version = "=0.10.1", features = ["full"] }
eframe = { version = "0.33", default-features = false, features = ["glow", "x11", "default_fonts"] }
