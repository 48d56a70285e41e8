[package]
name = "http_server_tester"
version = "0.1.0"
edition = "2021"
publish = false

[dependencies]
clap = { version = "3", features = ["derive"] }
log = "0.4"
log4rs = "1"
serde_json = "1"
