[package]
name = "flodo"
version = "0.1.0"
edition = "2021"
publish = false

[dependencies]
pulldown-cmark = { version = "=0.13.6", default-features = false }
skrifa = "=0.44.0"
serde = { version = "=1.0.229", features = ["derive"] }
serde_json = "=1.0.154"
fontdb = "=0.24.0"
global-hotkey = "=0.9.0"
eframe = { version = "=0.37.0", default-features = false, features = ["default_fonts", "glow", "x11"] }
