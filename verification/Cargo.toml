[package]
name = "zephyr"
version = "0.1.0"
edition = "2021"
publish = false

[dependencies]
hecs = "=0.11.2"
macroquad = { version = "=0.4.16", default-features = false }
quick-xml = { version = "=0.37.5", features = ["serialize"] }
serde = { version = "=1.0.229", features = ["derive"] }
