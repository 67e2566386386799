[package]
name = "rrbot"
version = "0.2.0"
edition = "2021"
publish = false

[dependencies]
fancy-regex = "=0.20.0"
orca = "=0.7.0"
serde_json = "=1.0.154"
