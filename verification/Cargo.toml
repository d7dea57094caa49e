[package]
name = "enzim_ui"
version = "0.1.0"
edition = "2021"
publish = false

[dependencies]
serde_json = "1"
gtk4 = "*"
libadwaita = "*"
sourceview5 = "*"
rusqlite = { version = "*", features = ["bundled"] }
libc = "0.2"
