[package]
name = "rural"
version = "0.1.0"
edition = "2021"
publish = false

[dependencies]
clap = "*"
colored = "*"
json-color = "*"
reqwest = { version = "*", default-features = false, features = ["blocking"] }
serde_json = "*"
