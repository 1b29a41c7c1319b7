[package]
name = "apirun"
version = "0.1.0"
edition = "2021"
publish = false

[dependencies]
serde_json = "=1.0.151"
serde = { version = "=1.0.229", features = ["derive"] }
clap = "=4.6.7"
colored = "=3.1.1"
reqwest = { version = "=0.13.5", default-features = false, features = ["blocking", "json", "form"] }
