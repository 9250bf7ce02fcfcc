[package]
name = "domain_info"
version = "0.1.0"
edition = "2021"
publish = false

[dependencies]
ureq = "2"
dns-lookup = "2"
ssl-expiration = "*"
serde = { version = "1", features = ["derive"] }
serde_json = "1"
