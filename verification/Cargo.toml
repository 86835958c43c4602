[package]
name = "ide_engine"
version = "0.1.0"
edition = "2021"
publish = false

[dependencies]
regex = "1"
serde = { version = "1", features = ["derive"] }
rayon = "1"
walkdir = "2"
ignore = "0.4"
