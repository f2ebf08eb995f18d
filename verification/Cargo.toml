[package]
name = "pgdump2sqlite"
version = "0.1.0"
edition = "2021"
publish = false

[dependencies]
anyhow = "1"
clap = { version = "4", features = ["derive"] }
itertools = "0.13"
rusqlite = { version = "0.31", features = ["bundled"] }
tar = "0.4"
