[package]
name = "influent"
version = "0.5.0"
edition = "2021"
publish = false

[dependencies]
async-trait = "0.1"
base64 = "0.13"
futures = "0.3"
hyper = { version = "0.14", features = ["client", "http1", "tcp"] }
reqwest = { version = "0.11", default-features = false }
url = "2"
