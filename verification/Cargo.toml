[package]
name = "lcars_ops"
version = "0.1.0"
edition = "2021"
publish = false

[dependencies]
sysinfo = { version = "0.33", default-features = false, features = ["component", "disk", "network", "system", "user"] }
chrono = { version = "0.4", default-features = false, features = ["clock"] }
egui = "0.30"
eframe = { version = "0.30", default-features = false, features = ["glow"] }
