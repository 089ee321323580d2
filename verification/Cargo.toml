[package]
name = "cosmic_toplevel"
version = "0.1.0"
edition = "2021"
publish = false

[dependencies]
anyhow = "=1.0.104"
calloop = "=0.14.5"
calloop-wayland-source = "=0.4.1"
cosmic-protocols = "=0.2.0"
freedesktop-desktop-entry = "=0.8.4"
futures = "=0.3.34"
pop-launcher = "=1.2.7"
serde = { version = "=1.0.229", features = ["derive"] }
serde_json = "=1.0.154"
tokio = { version = "=1.54.1", features = ["io-std", "io-util", "rt", "macros"] }
tracing = "=0.1.44"
wayland-client = "=0.31.15"
zbus = "=6.1.0"
