[package]
name = "systrace"
version = "0.1.0"
edition = "2021"
publish = false

[dependencies]
anyhow = "1"
chrono = { version = "0.4", default-features = false, features = ["std"] }
clap = { version = "4", default-features = false, features = ["std", "derive", "help", "usage"] }
crossbeam-channel = "0.5"
csv = "1"
eframe = { version = "0.31", default-features = false, features = ["default_fonts", "glow", "x11"] }
egui_extras = { version = "0.31", default-features = false }
lasso = { version = "0.7", features = ["multi-threaded"] }
regex = "1"
rfd = { version = "0.15", default-features = false, features = ["xdg-portal", "tokio"] }
rustc-hash = "2"
serde = { version = "1", features = ["derive"] }
serde_json = "1"
serde_yaml = "0.9"
thiserror = "2"
tracing = "0.1"
tracing-subscriber = { version = "0.3", default-features = false, features = ["fmt", "std"] }
uuid = "1"
