[package]
name = "desktop_launcher"
version = "0.1.0"
edition = "2021"
publish = false

[dependencies]
anyhow = "1"
clap = { version = "4", features = ["derive", "env"] }
configparser = "3"
hex = "0.4"
regex = "1"
rkyv = "0.8"
rustc-hash = "2"
serde = { version = "1", features = ["derive"] }
serde_json = "1"
