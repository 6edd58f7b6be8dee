[package]
name = "binglish"
version = "0.1.0"
edition = "2021"
publish = false

[dependencies]
chrono = "0.4"
rand = "0.8"
serde = { version = "1", features = ["derive"] }
serde_json = "1"
parking_lot = "0.12"
log = "0.4"
env_logger = "0.11"
tokio = { version = "1", features = ["time", "rt", "macros"] }
reqwest = { version = "0.12", default-features = false, features = ["json", "blocking", "rustls-tls"] }
image = { version = "0.25", default-features = false, features = ["jpeg", "png", "bmp"] }
imageproc = { version = "0.25", default-features = false }
ab_glyph = "0.2"
