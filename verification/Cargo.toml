[package]
name = "nmap_analyze"
version = "0.1.0"
edition = "2021"
publish = false

[dependencies]
serde = { version = "1", features = ["derive"] }
serde_json = "1"
serde_yaml = "*"
serde-xml-rs = "*"
prettytable-rs = "*"
