[package]
name = "velo"
version = "0.1.0"
edition = "2021"
publish = false

[dependencies]
markdown = ">=1.0.0-alpha.1"
syntect = { version = "5", default-features = false, features = ["default-syntaxes", "default-themes", "regex-fancy"] }
serde = { version = "1", features = ["derive"] }
serde_json = "1"
toml = "*"
uuid = { version = "1", features = ["v4", "serde"] }
cosmic-text = "*"
base64 = "*"
linkify = "*"
url = "2"
sys-locale = "*"
directories = "*"
