[package]
name = "rotation_sim"
version = "0.1.0"
edition = "2021"
publish = false

[dependencies]
bincode = "1"
hex = "0.4"
ring = "0.17"
horrorshow = "0.8"
serde_json = "1"
tiny_http = "0.12"
url = "2"
