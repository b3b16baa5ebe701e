[package]
name = "bark"
version = "0.0.1"
edition = "2021"
publish = false

[dependencies]
anyhow = "1"
chrono = "0.4"
clap = { version = "4", features = ["derive"] }
colored = "2"
content_inspector = "0.2"
glob = "0.3"
ignore = "0.4"
notify = "6"
rayon = "1"
regex = "1"
serde = { version = "1", features = ["derive"] }
tempfile = "3"
toml = "0.8"
