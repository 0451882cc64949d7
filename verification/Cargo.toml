[package]
name = "html_extract"
version = "0.1.0"
edition = "2021"
publish = false

[dependencies]
extism-pdk = "*"
serde_json = "*"
