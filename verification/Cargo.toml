[package]
name = "rdict"
version = "1.0.0"
edition = "2021"
publish = false

[dependencies]
ansi_term = "=0.12.1"
clap = { version = "=4.6.7", features = ["derive"] }
crossterm = "=0.27.0"
dirs = "=7.0.0"
indicatif = "=0.18.6"
pager-rs = "=0.3.0"
reqwest = { version = "=0.13.5", features = ["blocking"] }
rusqlite = { version = "=0.41.0", features = ["bundled"] }
serde_json = { version = "=1.0.154", features = ["preserve_order"] }
