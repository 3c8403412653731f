[package]
name = "goose"
version = "0.1.0"
edition = "2021"
publish = false

[dependencies]
num-format = "=0.4.4"
rand = "=0.8.8"
url = "=2.5.8"
chrono = "=0.4.45"
itertools = "=0.10.5"
serde = { version = "=1.0.229", features = ["derive"] }
serde_json = "=1.0.154"
http = "1"
