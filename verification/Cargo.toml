[package]
name = "rotten"
version = "0.1.0"
edition = "2021"
publish = false

[dependencies]
clap = { version = "4", features = ["derive"] }
color-eyre = "0.6"
log = "0.4"
serde = { version = "1", features = ["derive"] }
simplelog = "0.12"
toml_edit = { version = "0.19", features = ["serde"] }
