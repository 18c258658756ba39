[package]
name = "focus-pane"
version = "0.1.0"
edition = "2021"
publish = false

[dependencies]
anyhow = "1"
chrono = "0.4"
clap = { version = "4", features = ["derive"] }
crossterm = "0.29"
fs2 = "0.4"
glob = "0.3"
libc = "0.2"
ratatui = "0.30"
regex = "1"
rusqlite = { version = "*", features = ["bundled"] }
serde = { version = "1", features = ["derive"] }
toml = "*"
uuid = { version = "1", features = ["v4"] }
