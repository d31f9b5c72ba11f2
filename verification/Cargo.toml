[package]
name = "homedisk"
version = "0.1.0"
edition = "2021"
publish = false

[dependencies]
sha1 = "*"
sha2 = "*"
uuid = { version = "=1.27.0", features = ["v5"] }
hex = "=0.4.3"
byte-unit = "=5.2.6"
serde = { version = "=1.0.229", features = ["derive"] }
toml = "=0.8.23"
dirs = "=7.0.0"
anyhow = "=1.0.104"
