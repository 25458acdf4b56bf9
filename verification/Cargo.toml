[package]
name = "maelstrom_core"
version = "0.1.0"
edition = "2021"
publish = false

[dependencies]
sha2 = "*"
regex = "*"
globset = "*"
bracoxide = "*"
chrono = "*"
anyhow = "*"
