[package]
name = "kramwriter"
version = "0.1.0"
edition = "2021"
publish = false

[dependencies]
rand = "=0.8.8"
regex = "=1.13.1"
anyhow = "=1.0.104"
termion = "=4.0.6"
rpi_memory_display = "=0.1.2"
rppal = "=0.11.3"
fontdue = "=0.9.5"
chrono = "=0.4.45"
rusqlite = { version = "=0.41.1", features = ["bundled"] }
zip = { version = "=7.4.0", default-features = false, features = ["deflate-flate2-zlib-rs"] }
