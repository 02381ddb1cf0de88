[package]
name = "cheap_jio"
version = "0.1.0"
edition = "2021"
publish = false

[dependencies]
chrono = "0.4"
log = "0.4"
reqwest = { version = "0.11", features = ["json"] }
serde_json = "1"
simple_logger = "4"
timer = "0.2"
tokio = { version = "1", features = ["full"] }
warp = "0.3"
