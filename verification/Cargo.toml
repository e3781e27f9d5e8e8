[package]
name = "shelfkeeper"
version = "0.1.0"
edition = "2021"
publish = false

[dependencies]
anyhow = "=1.0.104"
chrono = "=0.4.45"
clap = { version = "=4.6.7", features = ["derive"] }
epub = "*"
image = "=0.24.9"
rusqlite = { version = "=0.40.2", features = ["bundled", "functions", "chrono"] }
sha1 = "=0.10.7"
uuid = { version = "=1.29.0", features = ["v4"] }
walkdir = "=2.5.0"
