[package]
name = "escl_scan"
version = "0.1.0"
edition = "2021"
publish = false

[dependencies]
lopdf = "*"
reqwest = { version = "*", default-features = false, features = ["blocking"] }
serde = { version = "*", features = ["derive"] }
serde-xml-rs = "*"
log = "*"
env_logger = "*"
clap = { version = "*", features = ["derive"] }
uuid = { version = "*", features = ["v4"] }
zeroconf = "*"
