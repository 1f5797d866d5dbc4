[package]
name = "mms"
version = "0.1.0"
edition = "2021"
publish = false

[dependencies]
toml_edit = "*"
clap = { version = "4", features = ["derive"] }
arboard = "*"

[dev-dependencies]
serde_json = "1"
