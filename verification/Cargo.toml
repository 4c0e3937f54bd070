[package]
name = "apireception"
version = "0.1.0"
edition = "2021"
publish = false

[dependencies]
arc-swap = "1"
drain = "0.1"
headers = "0.3"
hyper = { version = "0.14", features = ["full"] }
lieweb = "*"
pathrouter = "*"
rand = "0.8"
regex = "1"
rune = "0.12"
serde = { version = "1", features = ["derive"] }
serde_json = "1"
serde_yaml = "*"
tokio = { version = "1", features = ["full"] }
toml = "*"
url = "2"
