[package]
name = "dispresence"
version = "0.1.0"
edition = "2021"
publish = false

[dependencies]
crossbeam-channel = "=0.5.17"
discord-rich-presence = "=0.2.5"

[dev-dependencies]
serde_json = "=1.0.151"
