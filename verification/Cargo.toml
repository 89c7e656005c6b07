[package]
name = "filament"
version = "0.1.0"
edition = "2021"
publish = false

[dependencies]
chrono = "=0.4.45"
chrono-english = "=0.2.1"
crossterm = "=0.28.1"
dirs = "=7.0.0"
ignore = "=0.4.34"
ratatui = { version = "=0.29.0", features = ["serde"] }
rusqlite = { version = "=0.41.1", features = ["bundled"] }
serde = { version = "=1.0.229", features = ["derive"] }
serde_json = "=1.0.154"
toml = "=1.1.8"
