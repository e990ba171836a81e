[package]
name = "kanji_atlas"
version = "0.1.0"
edition = "2021"
publish = false

[dependencies]
serde = { version = "1", features = ["derive"] }
serde_json = "1"
serde-xml-rs = "*"
bincode = "1"
console = "*"
open = "*"
