[package]
name = "bitdb"
version = "0.1.0"
edition = "2021"
publish = false

[dependencies]
crc32fast = "1"
rayon = "1"
clap = { version = "4", features = ["derive"] }
crossterm = "0.28"
ratatui = "0.29"
rand = "0.8"
serde = { version = "1", features = ["derive"] }
serde_json = "1"
thiserror = "2"

[dev-dependencies]
tempfile = "3"
