[package]
name = "temp_reversi"
version = "0.1.0"
edition = "2021"
publish = false

[dependencies]
serde = { version = "1", features = ["derive"] }
bincode = { version = "2", features = ["serde"] }
flate2 = "1"
rayon = "1"
clap = { version = "4", features = ["derive"] }
env_logger = "0.11"
indicatif = "0.17"
plotters = "0.3"

[dev-dependencies]
tempfile = "3"
