[package]
name = "data_science"
version = "0.1.0"
edition = "2021"
publish = false

[dependencies]
chardetng = "0.1"
chrono = "0.4"
serde_json = "1.0"
