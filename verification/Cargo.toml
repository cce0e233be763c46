[package]
name = "nono"
version = "0.1.0"
edition = "2021"
publish = false

[dependencies]
pulldown-cmark = { version = "0.12", default-features = false, features = ["html"] }
serde = { version = "1", features = ["derive"] }
serde_yaml = "0.9"
serde_json = "1"
toml = "0.8"
ureq = { version = "2", features = ["json"] }
anyhow = "1"
clap = { version = "4", features = ["derive"] }
