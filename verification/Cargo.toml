[package]
name = "cb"
version = "0.1.0"
edition = "2021"
publish = false

[dependencies]
sha2 = "*"
rusqlite = { version = "*", features = ["bundled", "chrono"] }
chrono = { version = "*", features = ["serde"] }
clap = { version = "*", features = ["derive"] }
serde = { version = "*", features = ["derive"] }
serde_json = "*"
arboard = "*"
image = "*"
crossterm = "*"
ratatui = "*"
ctrlc = "*"
libc = "*"
dirs = "*"
