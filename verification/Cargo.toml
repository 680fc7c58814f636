[package]
name = "gpml"
version = "0.1.0"
edition = "2021"
publish = false

[dependencies]
quick-xml = "0.37"
aho-corasick = "1"
serde = { version = "1", features = ["derive"] }
serde_json = "1"
thiserror = "2"
anyhow = "1"
notify = "*"
rust-embed = "8"
