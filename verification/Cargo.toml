[package]
name = "pepperhash"
version = "0.1.0"
edition = "2021"
publish = false

[dependencies]
rand = "0.9"
sha2 = "0.10"
hex = "0.4"
ratatui = "*"
color-eyre = "0.6"

[dev-dependencies]
serde_json = "1"
